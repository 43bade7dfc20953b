//! The document on screen: where the cursor is, what is selected and tinted,
//! and which rows are in view.

use vstd::prelude::*;

use crate::config::Theme;
use crate::splice::{count_below, lemma_count_below, lemma_count_within, rising, to_base};
use crate::style::{Color, Line, LineV, Span, SpanV, Style};
use crate::text::{deep, group_deep};
use crate::wrap::{all_line_rows, all_row_lines, all_rows, wrap_diff_text, WrappedDoc};
use crate::wrap_laws::law_rows_and_lines_agree;

verus! {

/// A document with cards in it, laid out for a pane.
pub struct DocView {
    pub doc: Vec<Line>,
    /// `doc` wrapped to the pane's width.
    pub wrapped: WrappedDoc,
    /// The lines of `doc` that belong to no source line, ascending.
    pub card_lines: Vec<usize>,
    /// For each thread's card: the thread, the card's first line, its height.
    pub card_starts: Vec<(u64, usize, usize)>,
    /// The first line and the height of the box being written in.
    pub composer_span: Option<(usize, usize)>,
    /// The lines that are tinted now, as they were before.
    pub saved_tint: Vec<(usize, Line)>,
    pub cursor_line: usize,
    /// The other end of the selection.
    pub select_anchor: Option<usize>,
    /// The first row in view.
    pub scroll: u16,
    pub viewport_h: u16,
    pub viewport_w: u16,
}

#[verifier::ext_equal]
pub struct ViewV {
    pub doc: Seq<LineV>,
    pub rows: Seq<LineV>,
    pub row_to_line: Seq<usize>,
    pub line_to_row: Seq<usize>,
    pub card_lines: Seq<usize>,
    pub card_starts: Seq<(u64, usize, usize)>,
    pub composer_span: Option<(usize, usize)>,
    pub saved: Seq<(usize, LineV)>,
    pub cursor: int,
    pub select: Option<usize>,
    pub scroll: int,
    pub height: int,
    pub width: int,
}

pub open spec fn least(a: int, b: int) -> int {
    if a < b {
        a
    } else {
        b
    }
}

pub open spec fn most(a: int, b: int) -> int {
    if a < b {
        b
    } else {
        a
    }
}

/// `n` brought into a range.
pub open spec fn within(n: int, lo: int, hi: int) -> int {
    least(most(n, lo), hi)
}

/// The last place of a sequence of this length; 0 for an empty one.
pub open spec fn last_of(n: nat) -> int {
    if n == 0 {
        0
    } else {
        n - 1
    }
}

/// The scroll position nearest to a row: positions end at the largest 16-bit
/// integer.
pub open spec fn scroll_at(row: int) -> int {
    least(row, 65535)
}

// ---- tints -------------------------------------------------------------------------

/// A line on another background.
pub open spec fn tinted(l: LineV, bg: Color) -> LineV {
    LineV {
        spans: Seq::new(
            l.spans.len(),
            |i: int| SpanV { style: Style { bg: Some(bg), ..l.spans[i].style }, ..l.spans[i] },
        ),
        style: Style { bg: Some(bg), ..l.style },
    }
}

/// The background of the cursor's line.
pub open spec fn cursor_color(theme: Theme) -> Color {
    if theme == Theme::Light {
        Color::Rgb(0xdf, 0xe4, 0xee)
    } else {
        Color::Rgb(0x39, 0x3b, 0x4f)
    }
}

/// The background of the selected lines.
pub open spec fn select_color(theme: Theme) -> Color {
    if theme == Theme::Light {
        Color::Rgb(0xd8, 0xdd, 0xe6)
    } else {
        Color::Rgb(0x45, 0x47, 0x5a)
    }
}

/// The document with the saved lines back in their places.
pub open spec fn restored(doc: Seq<LineV>, saved: Seq<(usize, LineV)>) -> Seq<LineV>
    decreases saved.len(),
{
    if saved.len() == 0 {
        doc
    } else {
        let d = restored(doc, saved.drop_last());
        let (i, l) = saved.last();
        if i < d.len() {
            d.update(i as int, l)
        } else {
            d
        }
    }
}

/// The lines from `lo` to before `end`, without those of cards if `skip`.
pub open spec fn kept_aside(base: Seq<LineV>, cards: Seq<usize>, skip: bool, lo: int, end: int) -> Seq<(usize, LineV)>
    decreases end - lo,
{
    if end <= lo {
        Seq::empty()
    } else {
        let s = kept_aside(base, cards, skip, lo, end - 1);
        if skip && cards.contains((end - 1) as usize) {
            s
        } else {
            s.push(((end - 1) as usize, base[end - 1]))
        }
    }
}

/// The document with those lines tinted.
pub open spec fn with_tint(base: Seq<LineV>, cards: Seq<usize>, skip: bool, lo: int, end: int, bg: Color) -> Seq<LineV> {
    Seq::new(
        base.len(),
        |i: int|
            if lo <= i < end && !(skip && cards.contains(i as usize)) {
                tinted(base[i], bg)
            } else {
                base[i]
            },
    )
}

impl ViewV {
    /// Nothing on screen yet.
    pub open spec fn blank() -> ViewV {
        ViewV {
            doc: Seq::empty(),
            rows: Seq::empty(),
            row_to_line: Seq::empty(),
            line_to_row: Seq::empty(),
            card_lines: Seq::empty(),
            card_starts: Seq::empty(),
            composer_span: None,
            saved: Seq::empty(),
            cursor: 0,
            select: None,
            scroll: 0,
            height: 0,
            width: 0,
        }
    }

    pub open spec fn is_card(self, line: int) -> bool {
        self.card_lines.contains(line as usize)
    }

    /// The row that a line starts on.
    pub open spec fn row_of(self, line: int) -> int {
        if 0 <= line < self.line_to_row.len() {
            self.line_to_row[line] as int
        } else {
            0
        }
    }

    /// The first and the last row of a line.
    pub open spec fn rows_of(self, line: int) -> (int, int) {
        let first = self.row_of(line);
        let last = if line + 1 < self.line_to_row.len() {
            most(self.line_to_row[line + 1] - 1, 0)
        } else {
            last_of(self.rows.len())
        };
        (first, most(last, first))
    }

    /// The line that a row shows; the last line for a row below the document.
    pub open spec fn line_at(self, row: int) -> int {
        if 0 <= row < self.row_to_line.len() {
            self.row_to_line[row] as int
        } else {
            last_of(self.doc.len())
        }
    }

    /// How far down the document can be scrolled.
    pub open spec fn scroll_end(self) -> int {
        within(self.rows.len() - self.height, 0, 65535)
    }

    /// Scrolled no further than to the end.
    pub open spec fn held(self) -> ViewV {
        ViewV { scroll: least(self.scroll, self.scroll_end()), ..self }
    }

    /// The first line from `i` on that is no card's.
    pub open spec fn free_below(self, i: int) -> Option<int>
        decreases self.doc.len() - i,
    {
        if i < 0 || i > last_of(self.doc.len()) {
            None
        } else if !self.is_card(i) {
            Some(i)
        } else if i >= self.doc.len() {
            None
        } else {
            self.free_below(i + 1)
        }
    }

    /// The last line up to `i` that is no card's.
    pub open spec fn free_above(self, i: int) -> Option<int>
        decreases i + 1,
    {
        if i < 0 {
            None
        } else if !self.is_card(i) {
            Some(i)
        } else {
            self.free_above(i - 1)
        }
    }

    /// The nearest line that is no card's, looked for in one direction first.
    pub open spec fn off_cards(self, line: int, back: bool) -> int {
        let l = least(line, last_of(self.doc.len()));
        if !self.is_card(l) {
            l
        } else {
            let (first, second) = if back {
                (self.free_above(l), self.free_below(l))
            } else {
                (self.free_below(l), self.free_above(l))
            };
            match (first, second) {
                (Some(i), _) => i,
                (None, Some(i)) => i,
                (None, None) => l,
            }
        }
    }

    /// The selected lines, first and last; without a selection, the cursor's.
    pub open spec fn selected(self) -> (int, int) {
        match self.select {
            Some(a) => (least(a as int, self.cursor), most(a as int, self.cursor)),
            None => (self.cursor, self.cursor),
        }
    }

    /// Wrapped anew.
    pub open spec fn rewrapped(self) -> ViewV {
        let w = self.width as nat;
        ViewV {
            rows: all_rows(self.doc, w),
            row_to_line: all_row_lines(self.doc, w),
            line_to_row: all_line_rows(self.doc, w),
            ..self
        }
    }

    /// The tint of the cursor's line or of the selection put where it belongs.
    /// Where no diff is shown, nothing is tinted.
    #[verifier::opaque]
    pub open spec fn restyled(self, active: bool, theme: Theme) -> ViewV {
        let base = restored(self.doc, self.saved);
        if !active {
            ViewV { doc: base, saved: Seq::empty(), ..self }
        } else {
            let v = ViewV { cursor: least(self.cursor, last_of(base.len())), ..self };
            let (a, b) = v.selected();
            let end = least(b + 1, base.len() as int);
            let (skip, bg) = match self.select {
                Some(_) => (true, select_color(theme)),
                None => (false, cursor_color(theme)),
            };
            ViewV {
                doc: with_tint(base, self.card_lines, skip, a, end, bg),
                saved: kept_aside(base, self.card_lines, skip, a, end),
                ..v
            }.rewrapped()
        }
    }

    /// The cursor's new line where it has to come along with the rows in view.
    /// A selection stays as it is, and so does the cursor where the pane shows
    /// nothing but cards.
    pub open spec fn visible_cursor(self) -> int {
        let top = self.scroll;
        let bottom = least(top + most(self.height, 1) - 1, last_of(self.rows.len()));
        let row = self.row_of(self.cursor);
        let to = within(row, least(top, bottom), bottom);
        let line = self.off_cards(self.line_at(to), to < row);
        let (first, last) = self.rows_of(line);
        if self.select is Some || last < top || first > bottom {
            self.cursor
        } else {
            line
        }
    }

    #[verifier::opaque]
    pub open spec fn followed(self, active: bool, theme: Theme) -> ViewV {
        if self.visible_cursor() == self.cursor {
            self
        } else {
            ViewV { cursor: self.visible_cursor(), ..self }.restyled(active, theme)
        }
    }

    /// Scrolled by a number of rows, or to either end.
    #[verifier::opaque]
    pub open spec fn scrolled(self, delta: i32, active: bool, theme: Theme) -> ViewV {
        let to = if delta == i32::MIN {
            0
        } else if delta == i32::MAX {
            self.scroll_end()
        } else {
            within(self.scroll + delta, 0, self.scroll_end())
        };
        ViewV { scroll: to, ..self }.followed(active, theme)
    }

    /// The rows of a page, or of half a page.
    pub open spec fn page_rows(self, full: bool) -> int {
        if full {
            most(self.height, 1)
        } else {
            most(most(self.height, 1) / 2, 1)
        }
    }

    /// The line that the cursor goes to.
    pub open spec fn cursor_to(self, delta: i32) -> int {
        let last = last_of(self.doc.len());
        if delta == i32::MIN {
            self.off_cards(0, false)
        } else if delta == i32::MAX {
            self.off_cards(last, true)
        } else {
            self.off_cards(within(self.cursor + delta, 0, last), delta < 0)
        }
    }

    /// The scroll that brings a row into view.
    pub open spec fn scroll_for(self, row: int) -> int {
        let h = most(self.height, 1);
        if row < self.scroll {
            scroll_at(row)
        } else if row >= self.scroll + h {
            scroll_at(row + 1 - h)
        } else {
            self.scroll
        }
    }

    #[verifier::opaque]
    pub open spec fn moved(self, delta: i32, active: bool, theme: Theme) -> ViewV {
        let v = ViewV { cursor: self.cursor_to(delta), ..self };
        ViewV { scroll: v.scroll_for(v.row_of(v.cursor)), ..v }.restyled(active, theme)
    }

    /// The last line of a block.
    pub open spec fn block_end(self, start: int, len: int) -> int {
        least(most(start + len - 1, 0), last_of(self.doc.len()))
    }

    /// Scrolled so that the box being written in is in view; its top, where it
    /// is taller than the pane.
    #[verifier::opaque]
    pub open spec fn at_composer(self) -> ViewV {
        match self.composer_span {
            None => self,
            Some((start, len)) => {
                let h = most(self.height, 1);
                let end_row = self.row_of(self.block_end(start as int, len as int)) + 1;
                let s1 = if end_row > self.scroll + h {
                    scroll_at(end_row - h)
                } else {
                    self.scroll
                };
                let s2 = if s1 > self.row_of(start as int) {
                    scroll_at(self.row_of(start as int))
                } else {
                    s1
                };
                ViewV { scroll: s2, ..self }.held()
            },
        }
    }

    /// The first card of a thread.
    pub open spec fn card_of(self, id: u64, from: int) -> Option<(int, int)>
        decreases self.card_starts.len() - from,
    {
        if from < 0 || from >= self.card_starts.len() {
            None
        } else if self.card_starts[from].0 == id {
            Some((self.card_starts[from].1 as int, self.card_starts[from].2 as int))
        } else {
            self.card_of(id, from + 1)
        }
    }

    /// Scrolled so that a thread's card is in view; its end, where it is taller
    /// than the pane.
    #[verifier::opaque]
    pub open spec fn at_note(self, id: u64, active: bool, theme: Theme) -> ViewV {
        match self.card_of(id, 0) {
            None => self,
            Some((start, len)) => {
                let h = most(self.height, 1);
                let start_row = most(self.row_of(start) - 3, 0);
                let end_row = self.row_of(self.block_end(start, len)) + 1;
                let to = if end_row > start_row + h {
                    scroll_at(most(end_row - h, 0))
                } else {
                    scroll_at(start_row)
                };
                ViewV { scroll: to, ..self }.held().followed(active, theme)
            },
        }
    }
}

/// The last of the lowest cards that start before `line` (at it, if `at`).
pub open spec fn card_above(s: Seq<(u64, usize, usize)>, line: int, at: bool) -> Option<(u64, usize, usize)>
    decreases s.len(),
{
    if s.len() == 0 {
        None
    } else {
        let best = card_above(s.drop_last(), line, at);
        let c = s.last();
        if (c.1 < line || (at && c.1 == line)) && (best is None || (best->0).1 <= c.1) {
            Some(c)
        } else {
            best
        }
    }
}

/// The first of the highest cards that start at `line` or below it.
pub open spec fn card_below(s: Seq<(u64, usize, usize)>, line: int) -> Option<(u64, usize, usize)>
    decreases s.len(),
{
    if s.len() == 0 {
        None
    } else {
        let best = card_below(s.drop_last(), line);
        let c = s.last();
        if c.1 >= line && (best is None || c.1 < (best->0).1) {
            Some(c)
        } else {
            best
        }
    }
}

/// The thread whose card covers a line.
pub open spec fn card_at(s: Seq<(u64, usize, usize)>, line: int) -> Option<u64> {
    match card_above(s, line, true) {
        Some(c) => if line < c.1 + c.2 {
            Some(c.0)
        } else {
            None
        },
        None => None,
    }
}

/// The thread that is meant at a line: the one there, else the nearest below,
/// else the nearest above.
pub open spec fn thread_meant(s: Seq<(u64, usize, usize)>, line: int) -> Option<u64> {
    if card_at(s, line) is Some {
        card_at(s, line)
    } else if card_below(s, line) is Some {
        Some((card_below(s, line)->0).0)
    } else {
        match card_above(s, line, false) {
            Some(c) => Some(c.0),
            None => None,
        }
    }
}

pub open spec fn saved_model(s: Seq<(usize, Line)>) -> Seq<(usize, LineV)> {
    Seq::new(s.len(), |i: int| (s[i].0, s[i].1.deep_view()))
}

fn min_of(a: usize, b: usize) -> (r: usize)
    ensures
        r == least(a as int, b as int),
{
    if a < b {
        a
    } else {
        b
    }
}

fn max_of(a: usize, b: usize) -> (r: usize)
    ensures
        r == most(a as int, b as int),
{
    if a < b {
        b
    } else {
        a
    }
}

fn minus_of(a: usize, b: usize) -> (r: usize)
    ensures
        r == most(a - b, 0),
{
    if a > b {
        a - b
    } else {
        0
    }
}

fn scroll_to_row(n: usize) -> (r: u16)
    ensures
        r == scroll_at(n as int),
{
    if n < 65535 {
        n as u16
    } else {
        65535
    }
}

fn tint(l: &Line, bg: Color) -> (r: Line)
    ensures
        r.deep_view() == tinted(l.deep_view(), bg),
{
    let mut spans: Vec<Span> = Vec::new();
    let ghost want = tinted(l.deep_view(), bg).spans;
    let mut i: usize = 0;
    assert(deep(spans@) =~= want.take(0));
    while i < l.spans.len()
        invariant
            i <= l.spans@.len(),
            want == tinted(l.deep_view(), bg).spans,
            deep(spans@) == want.take(i as int),
        decreases l.spans@.len() - i,
    {
        broadcast use group_deep;

        let s: Span = Span { content: l.spans[i].copy().content, style: l.spans[i].style.bg(bg) };
        assert(deep(l.spans@)[i as int] == l.spans@[i as int].deep_view());
        assert(s.deep_view() == want[i as int]);
        spans.push(s);
        assert(want.take(i + 1) =~= want.take(i as int).push(want[i as int]));
        i += 1;
    }
    assert(want.take(i as int) =~= want);
    Line { spans, style: l.style.bg(bg) }
}

impl DocView {
    pub open spec fn model(self) -> ViewV {
        ViewV {
            doc: deep(self.doc@),
            rows: deep(self.wrapped.text@),
            row_to_line: self.wrapped.row_to_line@,
            line_to_row: self.wrapped.line_to_row@,
            card_lines: self.card_lines@,
            card_starts: self.card_starts@,
            composer_span: self.composer_span,
            saved: saved_model(self.saved_tint@),
            cursor: self.cursor_line as int,
            select: self.select_anchor,
            scroll: self.scroll as int,
            height: self.viewport_h as int,
            width: self.viewport_w as int,
        }
    }

    /// Card lines rise, blocks end within reach, and each line starts on a row
    /// that another one can follow.
    pub open spec fn wf(self) -> bool {
        &&& rising(self.card_lines@)
        &&& forall|i: int|
            0 <= i < self.card_starts@.len() ==> (#[trigger] self.card_starts@[i]).1
                + self.card_starts@[i].2 <= usize::MAX
        &&& self.composer_span matches Some(s) ==> s.0 + s.1 <= usize::MAX
        &&& forall|i: int|
            0 <= i < self.wrapped.line_to_row@.len() ==> (#[trigger] self.wrapped.line_to_row@[i])
                < usize::MAX
    }

    /// Nothing on screen yet.
    pub fn new() -> (r: DocView)
        ensures
            r.wf(),
            r.model() == ViewV::blank(),
    {
        broadcast use group_deep;

        let r = DocView {
            doc: Vec::new(),
            wrapped: WrappedDoc { text: Vec::new(), row_to_line: Vec::new(), line_to_row: Vec::new() },
            card_lines: Vec::new(),
            card_starts: Vec::new(),
            composer_span: None,
            saved_tint: Vec::new(),
            cursor_line: 0,
            select_anchor: None,
            scroll: 0,
            viewport_h: 0,
            viewport_w: 0,
        };
        assert(saved_model(r.saved_tint@) =~= Seq::<(usize, LineV)>::empty());
        r
    }

    /// The number of lines.
    pub fn content_lines(&self) -> (r: usize)
        ensures
            r == self.model().doc.len(),
    {
        self.doc.len()
    }

    /// The number of rows.
    pub fn visible_row_count(&self) -> (r: usize)
        ensures
            r == self.model().rows.len(),
    {
        self.wrapped.text.len()
    }

    fn last_line(&self) -> (r: usize)
        ensures
            r == last_of(self.model().doc.len()),
    {
        minus_of(self.doc.len(), 1)
    }

    /// How many card lines stand above `line`.
    pub fn cards_before(&self, line: usize) -> (r: usize)
        requires
            self.wf(),
        ensures
            r == count_below(self.model().card_lines, line as int),
            r <= line,
            forall|i: int| 0 <= i < r ==> (#[trigger] self.card_lines@[i]) < line,
            forall|i: int| r <= i < self.card_lines@.len() ==> (#[trigger] self.card_lines@[i]) >= line,
    {
        let mut lo: usize = 0;
        let mut hi: usize = self.card_lines.len();
        while lo < hi
            invariant
                lo <= hi <= self.card_lines@.len(),
                rising(self.card_lines@),
                forall|i: int| 0 <= i < lo ==> (#[trigger] self.card_lines@[i]) < line,
                forall|i: int| hi <= i < self.card_lines@.len() ==> (#[trigger] self.card_lines@[i]) >= line,
            decreases hi - lo,
        {
            let mid: usize = lo + (hi - lo) / 2;
            if self.card_lines[mid] < line {
                assert forall|i: int| 0 <= i < mid + 1 implies (#[trigger] self.card_lines@[i]) < line by {
                    if i < mid {
                        assert(self.card_lines@[i] < self.card_lines@[mid as int]);
                    }
                }
                lo = mid + 1;
            } else {
                assert forall|i: int| mid <= i < self.card_lines@.len() implies (
                #[trigger] self.card_lines@[i]) >= line by {
                    if i > mid {
                        assert(self.card_lines@[mid as int] < self.card_lines@[i]);
                    }
                }
                hi = mid;
            }
        }
        proof {
            lemma_count_below(self.card_lines@, line as int, lo as int);
            lemma_count_within(self.card_lines@, line as int);
        }
        lo
    }

    /// Whether a line belongs to a card.
    pub fn is_card_line(&self, line: usize) -> (r: bool)
        requires
            self.wf(),
        ensures
            r == self.model().is_card(line as int),
    {
        let k: usize = self.cards_before(line);
        let r = k < self.card_lines.len() && self.card_lines[k] == line;
        proof {
            if self.card_lines@.contains(line) {
                let j = choose|j: int| 0 <= j < self.card_lines@.len() && self.card_lines@[j] == line;
                assert(j >= k) by {
                    if j < k {
                        assert(self.card_lines@[j] < line);
                    }
                }
                if j > k {
                    assert(self.card_lines@[k as int] < self.card_lines@[j]);
                }
            }
        }
        r
    }

    /// The line of the document without cards; none for a card's line.
    pub fn doc_to_built(&self, line: usize) -> (r: Option<usize>)
        requires
            self.wf(),
        ensures
            (r matches Some(n) ==> to_base(self.model().card_lines, line as int) == Some(n as int)),
            r is None <==> to_base(self.model().card_lines, line as int) is None,
    {
        if self.is_card_line(line) {
            return None;
        }
        Some(line - self.cards_before(line))
    }

    /// The row that a line starts on.
    pub fn row_of_line(&self, line: usize) -> (r: usize)
        ensures
            r == self.model().row_of(line as int),
            self.wf() ==> r < usize::MAX,
    {
        if line < self.wrapped.line_to_row.len() {
            self.wrapped.line_to_row[line]
        } else {
            0
        }
    }

    /// The first and the last row of a line.
    pub fn row_span_of_line(&self, line: usize) -> (r: (usize, usize))
        ensures
            (r.0 as int, r.1 as int) == self.model().rows_of(line as int),
    {
        let first: usize = self.row_of_line(line);
        let n: usize = self.wrapped.line_to_row.len();
        let last: usize = if n > 0 && line < n - 1 {
            minus_of(self.wrapped.line_to_row[line + 1], 1)
        } else {
            minus_of(self.visible_row_count(), 1)
        };
        (first, max_of(last, first))
    }

    /// The line that a row shows.
    pub fn line_of_row(&self, row: usize) -> (r: usize)
        ensures
            r == self.model().line_at(row as int),
    {
        if row < self.wrapped.row_to_line.len() {
            self.wrapped.row_to_line[row]
        } else {
            self.last_line()
        }
    }

    pub fn max_scroll(&self) -> (r: u16)
        ensures
            r == self.model().scroll_end(),
    {
        let n: usize = minus_of(self.visible_row_count(), self.viewport_h as usize);
        if n > 65535 {
            65535
        } else {
            n as u16
        }
    }

    pub fn clamp_scroll(&mut self)
        requires
            old(self).wf(),
        ensures
            final(self).wf(),
            final(self).model() == old(self).model().held(),
    {
        let max: u16 = self.max_scroll();
        if self.scroll > max {
            self.scroll = max;
        }
    }

    fn find_below(&self, from: usize) -> (r: Option<usize>)
        requires
            self.wf(),
        ensures
            (r matches Some(n) ==> self.model().free_below(from as int) == Some(n as int)),
            r is None <==> self.model().free_below(from as int) is None,
    {
        let last: usize = self.last_line();
        let n: usize = self.doc.len();
        let mut i: usize = from;
        while i <= last && i < n
            invariant
                self.wf(),
                last == last_of(self.model().doc.len()),
                n == self.model().doc.len(),
                self.model().free_below(from as int) == self.model().free_below(i as int),
            decreases n - i,
        {
            if !self.is_card_line(i) {
                return Some(i);
            }
            i += 1;
        }
        if n == 0 && i == 0 && !self.is_card_line(0) {
            return Some(0);
        }
        None
    }

    fn find_above(&self, from: usize) -> (r: Option<usize>)
        requires
            self.wf(),
        ensures
            (r matches Some(n) ==> self.model().free_above(from as int) == Some(n as int)),
            r is None <==> self.model().free_above(from as int) is None,
    {
        let mut i: usize = from;
        loop
            invariant
                self.wf(),
                self.model().free_above(from as int) == self.model().free_above(i as int),
            decreases i,
        {
            if !self.is_card_line(i) {
                return Some(i);
            }
            if i == 0 {
                assert(self.model().free_above(-1) is None);
                return None;
            }
            i -= 1;
        }
    }

    /// The nearest line that is no card's, looked for in one direction first.
    pub fn snap_off_card(&self, line: usize, back: bool) -> (r: usize)
        requires
            self.wf(),
        ensures
            r == self.model().off_cards(line as int, back),
    {
        let l: usize = min_of(line, self.last_line());
        if !self.is_card_line(l) {
            return l;
        }
        let below: Option<usize> = self.find_below(l);
        let above: Option<usize> = self.find_above(l);
        let (first, second) = if back {
            (above, below)
        } else {
            (below, above)
        };
        match first {
            Some(i) => i,
            None => match second {
                Some(i) => i,
                None => l,
            },
        }
    }

    /// The selected lines, first and last.
    pub fn selection(&self) -> (r: (usize, usize))
        ensures
            (r.0 as int, r.1 as int) == self.model().selected(),
    {
        match self.select_anchor {
            Some(a) => (min_of(a, self.cursor_line), max_of(a, self.cursor_line)),
            None => (self.cursor_line, self.cursor_line),
        }
    }

    /// Wrap the document to the pane's width.
    pub fn sync_wrapped(&mut self)
        requires
            old(self).wf(),
        ensures
            final(self).wf(),
            final(self).model() == old(self).model().rewrapped(),
    {
        let w: WrappedDoc = wrap_diff_text(&self.doc, self.viewport_w as usize);
        let ghost d = deep(self.doc@);
        let ghost n = self.viewport_w as nat;
        let count: usize = w.text.len();
        let lines: usize = self.doc.len();
        proof {
            assert forall|i: int| 0 <= i < w.line_to_row@.len() implies (#[trigger] w.line_to_row@[i])
                < usize::MAX by {
                lemma_line_rows_len(d, n);
                law_rows_and_lines_agree(d, n, i);
            }
        }
        self.wrapped = w;
    }

    fn restore(&mut self)
        requires
            old(self).wf(),
        ensures
            final(self).wf(),
            final(self).saved_tint@.len() == 0,
            final(self).model() == (ViewV {
                doc: restored(old(self).model().doc, old(self).model().saved),
                saved: Seq::empty(),
                ..old(self).model()
            }),
    {
        broadcast use group_deep;

        let ghost start = *self;
        let ghost d0 = deep(self.doc@);
        let ghost sv = saved_model(self.saved_tint@);
        let n: usize = self.saved_tint.len();
        let mut i: usize = 0;
        while i < n
            invariant
                i <= n == self.saved_tint@.len(),
                sv == saved_model(self.saved_tint@),
                deep(self.doc@) == restored(d0, sv.take(i as int)),
                *self == (DocView { doc: self.doc, ..start }),
            decreases n - i,
        {
            assert(sv.take(i + 1).drop_last() =~= sv.take(i as int));
            assert(sv.take(i + 1).last() == sv[i as int]);
            let at: usize = self.saved_tint[i].0;
            if at < self.doc.len() {
                let l: Line = self.saved_tint[i].1.copy();
                let ghost before = deep(self.doc@);
                self.doc[at] = l;
                assert(deep(self.doc@) =~= before.update(at as int, sv[i as int].1));
            }
            i += 1;
        }
        assert(sv.take(n as int) =~= sv);
        self.saved_tint = Vec::new();
        assert(saved_model(self.saved_tint@) =~= Seq::<(usize, LineV)>::empty());
    }

    fn put_tint(&mut self, skip: bool, lo: usize, end: usize, bg: Color)
        requires
            old(self).wf(),
            old(self).saved_tint@.len() == 0,
            end <= old(self).doc@.len(),
        ensures
            final(self).wf(),
            final(self).model() == ({
                let v = old(self).model();
                ViewV {
                    doc: with_tint(v.doc, v.card_lines, skip, lo as int, end as int, bg),
                    saved: kept_aside(v.doc, v.card_lines, skip, lo as int, end as int),
                    ..v
                }
            }),
    {
        let ghost start = *self;
        let ghost b = deep(self.doc@);
        let ghost cl = self.card_lines@;
        let mut i: usize = lo;
        proof {
            assert(with_tint(b, cl, skip, lo as int, lo as int, bg) =~= b);
            assert(saved_model(self.saved_tint@) =~= kept_aside(b, cl, skip, lo as int, lo as int));
        }
        while i < end
            invariant
                lo <= i,
                i <= end || i == lo,
                end <= b.len() == self.doc@.len(),
                self.wf(),
                cl == self.card_lines@,
                deep(self.doc@) == with_tint(b, cl, skip, lo as int, i as int, bg),
                saved_model(self.saved_tint@) == kept_aside(b, cl, skip, lo as int, i as int),
                *self == (DocView { doc: self.doc, saved_tint: self.saved_tint, ..start }),
            decreases end - i,
        {
            let ghost now = deep(self.doc@);
            let leave = skip && self.is_card_line(i);
            if !leave {
                assert(now[i as int] == self.doc@[i as int].deep_view());
                let plain: Line = self.doc[i].copy();
                let painted: Line = tint(&plain, bg);
                let ghost pv = plain.deep_view();
                let ghost s0 = self.saved_tint@;
                self.saved_tint.push((i, plain));
                assert(saved_model(self.saved_tint@) =~= saved_model(s0).push((i, pv)));
                self.doc[i] = painted;
                assert(deep(self.doc@) =~= now.update(i as int, tinted(pv, bg)));
            }
            assert(deep(self.doc@) =~= with_tint(b, cl, skip, lo as int, i + 1, bg));
            i += 1;
        }
        proof {
            if end < lo {
                assert(with_tint(b, cl, skip, lo as int, end as int, bg) =~= b);
                assert(kept_aside(b, cl, skip, lo as int, end as int) =~= Seq::<(usize, LineV)>::empty());
            }
        }
    }

    /// Put the tint where it belongs.
    pub fn restyle(&mut self, active: bool, theme: Theme)
        requires
            old(self).wf(),
        ensures
            final(self).wf(),
            final(self).model() == old(self).model().restyled(active, theme),
    {
        proof {
            reveal(ViewV::restyled);
        }
        self.restore();
        if !active {
            return;
        }
        self.cursor_line = min_of(self.cursor_line, self.last_line());
        let (a, b) = self.selection();
        let n: usize = self.doc.len();
        let end: usize = if b < n {
            b + 1
        } else {
            n
        };
        match self.select_anchor {
            Some(_) => {
                let bg: Color = if theme.is_light() {
                    Color::Rgb(0xd8, 0xdd, 0xe6)
                } else {
                    Color::Rgb(0x45, 0x47, 0x5a)
                };
                self.put_tint(true, a, end, bg);
            },
            None => {
                let bg: Color = if theme.is_light() {
                    Color::Rgb(0xdf, 0xe4, 0xee)
                } else {
                    Color::Rgb(0x39, 0x3b, 0x4f)
                };
                self.put_tint(false, a, end, bg);
            },
        }
        self.sync_wrapped();
    }

    /// Take the cursor along with the rows in view.
    pub fn keep_cursor_visible(&mut self, active: bool, theme: Theme)
        requires
            old(self).wf(),
        ensures
            final(self).wf(),
            final(self).model() == old(self).model().followed(active, theme),
    {
        proof {
            reveal(ViewV::followed);
        }
        if self.select_anchor.is_some() {
            return;
        }
        let last_row: usize = minus_of(self.visible_row_count(), 1);
        let top: usize = self.scroll as usize;
        let h: usize = max_of(self.viewport_h as usize, 1);
        let bottom: usize = min_of(top + h - 1, last_row);
        let row: usize = self.row_of_line(self.cursor_line);
        let to: usize = min_of(max_of(row, min_of(top, bottom)), bottom);
        let line: usize = self.snap_off_card(self.line_of_row(to), to < row);
        let (first, last) = self.row_span_of_line(line);
        if last < top || first > bottom {
            return;
        }
        if line != self.cursor_line {
            self.cursor_line = line;
            self.restyle(active, theme);
        }
    }

    /// Scroll by a number of rows; the least and the greatest number stand for
    /// the two ends.
    pub fn scroll_by(&mut self, delta: i32, active: bool, theme: Theme)
        requires
            old(self).wf(),
        ensures
            final(self).wf(),
            final(self).model() == old(self).model().scrolled(delta, active, theme),
    {
        proof {
            reveal(ViewV::scrolled);
        }
        let max: u16 = self.max_scroll();
        self.scroll = if delta == i32::MIN {
            0
        } else if delta == i32::MAX {
            max
        } else {
            let next: i64 = self.scroll as i64 + delta as i64;
            if next < 0 {
                0
            } else if next > max as i64 {
                max
            } else {
                next as u16
            }
        };
        self.keep_cursor_visible(active, theme);
    }

    /// Scroll by a page, or by half of one.
    pub fn page(&mut self, down: bool, full: bool, active: bool, theme: Theme)
        requires
            old(self).wf(),
        ensures
            final(self).wf(),
            final(self).model() == ({
                let n = old(self).model().page_rows(full);
                old(self).model().scrolled((if down { n } else { -n }) as i32, active, theme)
            }),
    {
        let h: i32 = if self.viewport_h == 0 {
            1
        } else {
            self.viewport_h as i32
        };
        let n: i32 = if full {
            h
        } else if h / 2 < 1 {
            1
        } else {
            h / 2
        };
        self.scroll_by(if down { n } else { -n }, active, theme);
    }

    /// Move the cursor by a number of lines, or to either end; the rows in view
    /// follow it.
    pub fn move_cursor(&mut self, delta: i32, active: bool, theme: Theme)
        requires
            old(self).wf(),
        ensures
            final(self).wf(),
            final(self).model() == old(self).model().moved(delta, active, theme),
    {
        proof {
            reveal(ViewV::moved);
        }
        let last: usize = self.last_line();
        let target: usize = if delta == i32::MIN {
            0
        } else if delta == i32::MAX {
            last
        } else if delta < 0 {
            let back: i64 = -(delta as i64);
            min_of(minus_of(self.cursor_line, back as usize), last)
        } else if self.cursor_line < last && (delta as usize) < last - self.cursor_line {
            self.cursor_line + delta as usize
        } else {
            last
        };
        let back: bool = delta == i32::MAX || (delta != i32::MIN && delta < 0);
        self.cursor_line = self.snap_off_card(target, back);
        let h: usize = max_of(self.viewport_h as usize, 1);
        let row: usize = self.row_of_line(self.cursor_line);
        if row < self.scroll as usize {
            self.scroll = scroll_to_row(row);
        } else if row >= self.scroll as usize + h {
            self.scroll = scroll_to_row(row + 1 - h);
        }
        self.restyle(active, theme);
    }

    fn block_end_of(&self, start: usize, len: usize) -> (r: usize)
        requires
            start + len <= usize::MAX,
        ensures
            r == self.model().block_end(start as int, len as int),
    {
        min_of(minus_of(start + len, 1), self.last_line())
    }

    /// Scroll the box being written in into view.
    pub fn scroll_to_composer(&mut self)
        requires
            old(self).wf(),
        ensures
            final(self).wf(),
            final(self).model() == old(self).model().at_composer(),
    {
        proof {
            reveal(ViewV::at_composer);
        }
        match self.composer_span {
            None => {},
            Some((start, len)) => {
                let h: usize = max_of(self.viewport_h as usize, 1);
                let last_line: usize = self.block_end_of(start, len);
                let start_row: usize = self.row_of_line(start);
                let end_row: usize = self.row_of_line(last_line) + 1;
                if end_row > self.scroll as usize + h {
                    self.scroll = scroll_to_row(end_row - h);
                }
                if self.scroll as usize > start_row {
                    self.scroll = scroll_to_row(start_row);
                }
                self.clamp_scroll();
            },
        }
    }

    fn find_card(&self, id: u64) -> (r: Option<(usize, usize)>)
        requires
            self.wf(),
        ensures
            match r {
                Some(c) => self.model().card_of(id, 0) == Some((c.0 as int, c.1 as int)) && c.0 + c.1
                    <= usize::MAX,
                None => self.model().card_of(id, 0) is None,
            },
    {
        let mut i: usize = 0;
        while i < self.card_starts.len()
            invariant
                i <= self.card_starts@.len(),
                self.wf(),
                self.model().card_of(id, 0) == self.model().card_of(id, i as int),
            decreases self.card_starts@.len() - i,
        {
            if self.card_starts[i].0 == id {
                return Some((self.card_starts[i].1, self.card_starts[i].2));
            }
            i += 1;
        }
        None
    }

    /// Scroll a thread's card into view.
    pub fn scroll_to_note(&mut self, id: u64, active: bool, theme: Theme)
        requires
            old(self).wf(),
        ensures
            final(self).wf(),
            final(self).model() == old(self).model().at_note(id, active, theme),
    {
        proof {
            reveal(ViewV::at_note);
        }
        match self.find_card(id) {
            None => {},
            Some((start, len)) => {
                let h: usize = max_of(self.viewport_h as usize, 1);
                let start_row: usize = minus_of(self.row_of_line(start), 3);
                let last_line: usize = self.block_end_of(start, len);
                let end_row: usize = self.row_of_line(last_line) + 1;
                self.scroll = if end_row > h && end_row - h > start_row {
                    scroll_to_row(end_row - h)
                } else {
                    scroll_to_row(start_row)
                };
                self.clamp_scroll();
                self.keep_cursor_visible(active, theme);
            },
        }
    }

    fn best_above(&self, line: usize, at: bool) -> (r: Option<(u64, usize, usize)>)
        ensures
            r == card_above(self.card_starts@, line as int, at),
    {
        let mut best: Option<(u64, usize, usize)> = None;
        let mut i: usize = 0;
        while i < self.card_starts.len()
            invariant
                i <= self.card_starts@.len(),
                best == card_above(self.card_starts@.take(i as int), line as int, at),
            decreases self.card_starts@.len() - i,
        {
            assert(self.card_starts@.take(i + 1).drop_last() =~= self.card_starts@.take(i as int));
            let c: (u64, usize, usize) = self.card_starts[i];
            if c.1 < line || (at && c.1 == line) {
                match best {
                    None => {
                        best = Some(c);
                    },
                    Some(b) => {
                        if b.1 <= c.1 {
                            best = Some(c);
                        }
                    },
                }
            }
            i += 1;
        }
        assert(self.card_starts@.take(i as int) =~= self.card_starts@);
        best
    }

    /// The thread whose card covers a line.
    pub fn thread_at_line(&self, line: usize) -> (r: Option<u64>)
        requires
            self.wf(),
        ensures
            r == card_at(self.model().card_starts, line as int),
    {
        match self.best_above(line, true) {
            Some(c) => {
                proof {
                    lemma_above_is_listed(self.card_starts@, line as int, true);
                }
                if line < c.1 + c.2 {
                    Some(c.0)
                } else {
                    None
                }
            },
            None => None,
        }
    }

    /// The first thread whose card starts at a line or below it.
    pub fn nearest_card_below(&self, line: usize) -> (r: Option<u64>)
        ensures
            r == (match card_below(self.model().card_starts, line as int) {
                Some(c) => Some(c.0),
                None => None,
            }),
    {
        let mut best: Option<(u64, usize, usize)> = None;
        let mut i: usize = 0;
        while i < self.card_starts.len()
            invariant
                i <= self.card_starts@.len(),
                best == card_below(self.card_starts@.take(i as int), line as int),
            decreases self.card_starts@.len() - i,
        {
            assert(self.card_starts@.take(i + 1).drop_last() =~= self.card_starts@.take(i as int));
            let c: (u64, usize, usize) = self.card_starts[i];
            if c.1 >= line {
                match best {
                    None => {
                        best = Some(c);
                    },
                    Some(b) => {
                        if c.1 < b.1 {
                            best = Some(c);
                        }
                    },
                }
            }
            i += 1;
        }
        assert(self.card_starts@.take(i as int) =~= self.card_starts@);
        match best {
            Some(c) => Some(c.0),
            None => None,
        }
    }

    /// The last thread whose card starts above a line.
    pub fn nearest_card_above(&self, line: usize) -> (r: Option<u64>)
        ensures
            r == (match card_above(self.model().card_starts, line as int, false) {
                Some(c) => Some(c.0),
                None => None,
            }),
    {
        match self.best_above(line, false) {
            Some(c) => Some(c.0),
            None => None,
        }
    }

    /// The thread that is meant at the cursor.
    pub fn thread_at_cursor(&self) -> (r: Option<u64>)
        requires
            self.wf(),
        ensures
            r == thread_meant(self.model().card_starts, self.model().cursor),
    {
        let line: usize = self.cursor_line;
        match self.thread_at_line(line) {
            Some(id) => Some(id),
            None => match self.nearest_card_below(line) {
                Some(id) => Some(id),
                None => self.nearest_card_above(line),
            },
        }
    }
}

// ---- laws ---------------------------------------------------------------------------

/// Taking the tint off gives back the document that it was put on.
pub proof fn law_tint_comes_off(base: Seq<LineV>, cards: Seq<usize>, skip: bool, lo: int, end: int, bg: Color)
    requires
        0 <= lo,
        end <= base.len() <= usize::MAX,
    ensures
        restored(
            with_tint(base, cards, skip, lo, end, bg),
            kept_aside(base, cards, skip, lo, end),
        ) == base,
{
    lemma_tint_comes_off(base, with_tint(base, cards, skip, lo, end, bg), cards, skip, lo, end);
    if end <= lo {
        assert(with_tint(base, cards, skip, lo, end, bg) =~= base);
    } else {
        assert(restored(
            with_tint(base, cards, skip, lo, end, bg),
            kept_aside(base, cards, skip, lo, end),
        ) =~= base);
    }
}

proof fn lemma_tint_comes_off(base: Seq<LineV>, doc: Seq<LineV>, cards: Seq<usize>, skip: bool, lo: int, end: int)
    requires
        0 <= lo,
        end <= base.len() <= usize::MAX,
        doc.len() == base.len(),
    ensures
        restored(doc, kept_aside(base, cards, skip, lo, end)).len() == base.len(),
        forall|i: int|
            0 <= i < base.len() ==> #[trigger] restored(doc, kept_aside(base, cards, skip, lo, end))[i]
                == if lo <= i < end && !(skip && cards.contains(i as usize)) {
                base[i]
            } else {
                doc[i]
            },
    decreases end - lo,
{
    if end > lo {
        lemma_tint_comes_off(base, doc, cards, skip, lo, end - 1);
        let s = kept_aside(base, cards, skip, lo, end - 1);
        if !(skip && cards.contains((end - 1) as usize)) {
            let x = ((end - 1) as usize, base[end - 1]);
            assert(s.push(x).drop_last() =~= s);
        }
    }
}

/// Restyling leaves the document under the tint as it was, whatever was tinted
/// before: only the tint moves.
pub proof fn law_restyling_moves_only_the_tint(v: ViewV, active: bool, theme: Theme)
    requires
        v.doc.len() <= usize::MAX,
        v.cursor >= 0,
    ensures
        restored(v.restyled(active, theme).doc, v.restyled(active, theme).saved) == restored(
            v.doc,
            v.saved,
        ),
{
    reveal(ViewV::restyled);
    let base = restored(v.doc, v.saved);
    lemma_restored_len(v.doc, v.saved);
    if active {
        let w = ViewV { cursor: least(v.cursor, last_of(base.len())), ..v };
        let (a, b) = w.selected();
        let end = least(b + 1, base.len() as int);
        let (skip, bg) = match v.select {
            Some(_) => (true, select_color(theme)),
            None => (false, cursor_color(theme)),
        };
        law_tint_comes_off(base, v.card_lines, skip, a, end, bg);
    }
}

pub(crate) proof fn lemma_restored_len(doc: Seq<LineV>, saved: Seq<(usize, LineV)>)
    ensures
        restored(doc, saved).len() == doc.len(),
    decreases saved.len(),
{
    if saved.len() > 0 {
        lemma_restored_len(doc, saved.drop_last());
    }
}

/// The cursor never comes to rest on a card where the document has any other
/// line.
pub proof fn law_cursor_stays_off_cards(v: ViewV, line: int, back: bool, free: int)
    requires
        0 <= line,
        0 <= free < v.doc.len(),
        !v.is_card(free),
    ensures
        0 <= v.off_cards(line, back) < v.doc.len(),
        !v.is_card(v.off_cards(line, back)),
{
    let l = least(line, last_of(v.doc.len()));
    lemma_free_above(v, l);
    lemma_free_below(v, l);
    if free <= l {
        lemma_free_above_found(v, l, free);
    } else {
        lemma_free_below_found(v, l, free);
    }
}

proof fn lemma_free_above(v: ViewV, i: int)
    ensures
        v.free_above(i) matches Some(k) ==> 0 <= k <= i && !v.is_card(k),
    decreases i + 1,
{
    if i >= 0 {
        lemma_free_above(v, i - 1);
    }
}

proof fn lemma_free_above_found(v: ViewV, i: int, free: int)
    requires
        0 <= free <= i,
        !v.is_card(free),
    ensures
        v.free_above(i) is Some,
    decreases i,
{
    if i > free {
        lemma_free_above_found(v, i - 1, free);
    }
}

proof fn lemma_free_below(v: ViewV, i: int)
    requires
        v.doc.len() > 0,
    ensures
        v.free_below(i) matches Some(k) ==> i <= k < v.doc.len() && !v.is_card(k),
    decreases v.doc.len() - i,
{
    if 0 <= i < v.doc.len() {
        lemma_free_below(v, i + 1);
    }
}

proof fn lemma_free_below_found(v: ViewV, i: int, free: int)
    requires
        0 <= i <= free < v.doc.len(),
        !v.is_card(free),
    ensures
        v.free_below(i) is Some,
    decreases free - i,
{
    if i < free {
        lemma_free_below_found(v, i + 1, free);
    }
}

/// Scrolling never leaves the document: the first row in view is at most the
/// one that shows the last page.
pub proof fn law_scrolling_stays_inside(v: ViewV, delta: i32, active: bool, theme: Theme)
    ensures
        0 <= v.scrolled(delta, active, theme).scroll <= v.scroll_end(),
{
    reveal(ViewV::scrolled);
    reveal(ViewV::followed);
    reveal(ViewV::restyled);
}

proof fn lemma_line_rows_len(lines: Seq<LineV>, width: nat)
    ensures
        all_line_rows(lines, width).len() == lines.len(),
    decreases lines.len(),
{
    if lines.len() > 0 {
        lemma_line_rows_len(lines.drop_last(), width);
    }
}

proof fn lemma_above_is_listed(s: Seq<(u64, usize, usize)>, line: int, at: bool)
    ensures
        card_above(s, line, at) matches Some(c) ==> exists|i: int| 0 <= i < s.len() && s[i] == c,
    decreases s.len(),
{
    if s.len() > 0 {
        lemma_above_is_listed(s.drop_last(), line, at);
        match card_above(s, line, at) {
            Some(c) => {
                if card_above(s.drop_last(), line, at) == Some(c) {
                    let i = choose|i: int| 0 <= i < s.drop_last().len() && s.drop_last()[i] == c;
                    assert(s[i] == c);
                } else {
                    assert(s[s.len() - 1] == c);
                }
            },
            None => {},
        }
    }
}

} // verus!
