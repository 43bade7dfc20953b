//! Lines wrapped to the width of a pane.

use vstd::prelude::*;

use crate::rows::GUTTER_CHARS;
use crate::style::{copy_spans, line, span, Line, LineV, Span, SpanV, Style};
use crate::text::{chars_of, deep, group_deep, is_white, is_whitespace, rep, repeat_char, string_of};

verus! {

// ---- widths ----------------------------------------------------------------------

/// The cells that a character takes; none for a control character.
pub uninterp spec fn char_cells(c: char) -> Option<usize>;

/// The cells that a text takes.
pub uninterp spec fn text_cells(s: Seq<char>) -> usize;

/// `unicode_width::UnicodeWidthChar::width`: a function of the character.
#[verifier::external_body]
pub(crate) fn char_width(c: char) -> (r: Option<usize>)
    ensures
        r == char_cells(c),
{
    unicode_width::UnicodeWidthChar::width(c)
}

/// `unicode_width::UnicodeWidthStr::width`: a function of the text. It is not
/// said to be the sum of the characters' widths: sequences count as a whole.
#[verifier::external_body]
pub(crate) fn text_width(s: &str) -> (r: usize)
    ensures
        r == text_cells(s@),
{
    unicode_width::UnicodeWidthStr::width(s)
}

/// The cells of a character, 0 for a control character.
pub open spec fn cells(c: char) -> nat {
    match char_cells(c) {
        Some(n) => n as nat,
        None => 0,
    }
}

pub(crate) fn cells_of(c: char) -> (r: usize)
    ensures
        r == cells(c),
{
    match char_width(c) {
        Some(n) => n,
        None => 0,
    }
}

/// A sum of cells, which stops at the largest machine integer.
pub open spec fn plus(a: nat, b: nat) -> nat {
    if a + b <= usize::MAX {
        a + b
    } else {
        usize::MAX as nat
    }
}

pub(crate) fn plus_of(a: usize, b: usize) -> (r: usize)
    ensures
        r == plus(a as nat, b as nat),
{
    if b <= usize::MAX - a {
        a + b
    } else {
        usize::MAX
    }
}

/// The cells of a word, character by character.
pub open spec fn word_cells(w: Seq<char>) -> nat
    decreases w.len(),
{
    if w.len() == 0 {
        0
    } else {
        plus(word_cells(w.drop_last()), cells(w.last()))
    }
}

/// The cells of a row of spans, span by span.
pub open spec fn spans_cells(spans: Seq<SpanV>) -> nat
    decreases spans.len(),
{
    if spans.len() == 0 {
        0
    } else {
        plus(spans_cells(spans.drop_last()), text_cells(spans.last().content) as nat)
    }
}

// ---- wrapping one line ---------------------------------------------------------------

/// A line being wrapped: the rows so far, the cells taken on the last row, the
/// cells it may take, and a space that is only kept if something follows it.
#[verifier::ext_equal]
pub struct WrapV {
    pub rows: Seq<Seq<SpanV>>,
    pub row_w: nat,
    pub budget: nat,
    pub space: Option<SpanV>,
}

impl WrapV {
    /// A span put on the last row.
    pub open spec fn put(self, s: SpanV) -> WrapV {
        WrapV { rows: self.rows.drop_last().push(self.rows.last().push(s)), ..self }
    }

    /// A new row of `cont` cells.
    pub open spec fn next_row(self, cont: nat) -> WrapV {
        WrapV { rows: self.rows.push(Seq::empty()), row_w: 0, budget: cont, ..self }
    }

    /// A character put where it fits, on a new row if need be.
    pub open spec fn put_char(self, c: char, style: Style, cont: nat) -> WrapV {
        let st = if plus(self.row_w, cells(c)) > self.budget && self.row_w > 0 {
            self.next_row(cont)
        } else {
            self
        };
        let st2 = st.put(span(seq![c], style));
        WrapV { row_w: plus(st.row_w, cells(c)), ..st2 }
    }

    /// A word put character by character.
    pub open spec fn put_chars(self, w: Seq<char>, style: Style, cont: nat) -> WrapV
        decreases w.len(),
    {
        if w.len() == 0 {
            self
        } else {
            self.put_chars(w.drop_last(), style, cont).put_char(w.last(), style, cont)
        }
    }

    /// A word put on the last row, or on a new one where it does not fit. A
    /// word longer than a whole row is broken.
    pub open spec fn put_word(self, w: Seq<char>, style: Style, cont: nat) -> WrapV {
        if w.len() == 0 {
            self
        } else {
            let ww = word_cells(w);
            let st = if plus(self.row_w, ww) > self.budget && self.row_w > 0 {
                WrapV { space: None, ..self.next_row(cont) }
            } else {
                self
            };
            if ww > st.budget {
                st.put_chars(w, style, cont)
            } else {
                WrapV { row_w: plus(st.row_w, ww), ..st.put(span(w, style)) }
            }
        }
    }

    /// The space that was held back put on the last row.
    pub open spec fn put_space(self) -> WrapV {
        match self.space {
            Some(sp) => WrapV { space: None, ..self.put(sp) },
            None => self,
        }
    }

    /// A space after a word: held back where it fits, dropped together with
    /// the rest of the row where it does not.
    pub open spec fn put_white(self, c: char, style: Style, cont: nat) -> WrapV {
        if plus(self.row_w, cells(c)) > self.budget {
            WrapV { space: None, ..self.next_row(cont) }
        } else {
            let st = self.put_space();
            WrapV {
                space: Some(span(seq![c], style)),
                row_w: plus(self.row_w, cells(c)),
                ..st
            }
        }
    }

    /// The wrapping after some characters of a span, and the word they end in.
    pub open spec fn through(self, s: Seq<char>, style: Style, cont: nat) -> (WrapV, Seq<char>)
        decreases s.len(),
    {
        if s.len() == 0 {
            (self, Seq::empty())
        } else {
            let (st, w) = self.through(s.drop_last(), style, cont);
            if is_white(s.last()) {
                (st.put_word(w, style, cont).put_white(s.last(), style, cont), Seq::empty())
            } else {
                (st.put_space(), w.push(s.last()))
            }
        }
    }

    /// The wrapping after a whole span.
    pub open spec fn through_span(self, s: SpanV, cont: nat) -> WrapV {
        let (st, w) = self.through(s.content, s.style, cont);
        st.put_word(w, s.style, cont)
    }

    /// The wrapping after several spans.
    pub open spec fn through_spans(self, spans: Seq<SpanV>, cont: nat) -> WrapV
        decreases spans.len(),
    {
        if spans.len() == 0 {
            self
        } else {
            self.through_spans(spans.drop_last(), cont).through_span(spans.last(), cont)
        }
    }
}

pub open spec fn first_row(width: nat) -> WrapV {
    WrapV { rows: seq![Seq::empty()], row_w: 0, budget: width, space: None }
}

/// The cells of a continuation row: what the indent leaves, but at least one.
pub open spec fn cont_width(width: nat, indent: nat) -> nat {
    if width > indent + 1 {
        (width - indent) as nat
    } else {
        1
    }
}

/// A row as a line of its own; every row but the first is indented.
pub open spec fn row_as_line(row: Seq<SpanV>, i: int, indent: nat, style: Style) -> LineV {
    line(
        if i > 0 {
            seq![span(rep(' ', indent), Style::plain())] + row
        } else {
            row
        },
        style,
    )
}

/// A line wrapped into rows of at most `width` cells; a line that fits is left
/// alone.
pub open spec fn wrapped(l: LineV, width: nat, indent: nat) -> Seq<LineV> {
    if spans_cells(l.spans) <= width {
        seq![l]
    } else {
        let st = first_row(width).through_spans(l.spans, cont_width(width, indent)).put_space();
        Seq::new(st.rows.len(), |i: int| row_as_line(st.rows[i], i, indent, l.style))
    }
}

struct Wrap {
    rows: Vec<Vec<Span>>,
    row_w: usize,
    budget: usize,
    space: Option<Span>,
}

/// The models of rows of spans.
spec fn row_models(v: Seq<Vec<Span>>) -> Seq<Seq<SpanV>> {
    Seq::new(v.len(), |i: int| deep(v[i]@))
}

impl Wrap {
    spec fn model(self) -> WrapV {
        WrapV {
            rows: row_models(self.rows@),
            row_w: self.row_w as nat,
            budget: self.budget as nat,
            space: self.space.deep_view(),
        }
    }

    fn put(&mut self, s: Span)
        requires
            old(self).rows@.len() > 0,
        ensures
            final(self).model() == old(self).model().put(s.deep_view()),
            final(self).rows@.len() == old(self).rows@.len(),
    {
        broadcast use group_deep;

        let n: usize = self.rows.len();
        let ghost before = self.model();
        let ghost rows0 = self.rows@;
        let ghost sv = s.deep_view();
        self.rows[n - 1].push(s);
        proof {
            assert(self.rows@[n - 1]@ == rows0[n - 1]@.push(s));
            assert(row_models(self.rows@) =~= before.rows.drop_last().push(before.rows.last().push(sv)));
        }
    }

    fn next_row(&mut self, cont: usize)
        ensures
            final(self).model() == old(self).model().next_row(cont as nat),
            final(self).rows@.len() > 0,
    {
        broadcast use group_deep;

        let ghost before = self.model();
        self.rows.push(Vec::new());
        self.row_w = 0;
        self.budget = cont;
        assert(row_models(self.rows@) =~= before.rows.push(Seq::<SpanV>::empty()));
    }

    fn put_char(&mut self, c: char, style: Style, cont: usize)
        requires
            old(self).rows@.len() > 0,
        ensures
            final(self).model() == old(self).model().put_char(c, style, cont as nat),
            final(self).rows@.len() > 0,
    {
        let cw: usize = cells_of(c);
        if plus_of(self.row_w, cw) > self.budget && self.row_w > 0 {
            self.next_row(cont);
        }
        let mut s: String = String::new();
        s.push(c);
        assert(s@ =~= seq![c]);
        self.put(Span::styled(s, style));
        self.row_w = plus_of(self.row_w, cw);
    }

    fn put_word(&mut self, w: &Vec<char>, word_w: usize, style: Style, cont: usize)
        requires
            old(self).rows@.len() > 0,
            word_w == word_cells(w@),
        ensures
            final(self).model() == old(self).model().put_word(w@, style, cont as nat),
            final(self).rows@.len() > 0,
    {
        broadcast use group_deep;

        if w.len() == 0 {
            return;
        }
        if plus_of(self.row_w, word_w) > self.budget && self.row_w > 0 {
            self.next_row(cont);
            self.space = None;
        }
        if word_w > self.budget {
            let ghost st = self.model();
            let mut i: usize = 0;
            while i < w.len()
                invariant
                    i <= w@.len(),
                    self.rows@.len() > 0,
                    self.model() == st.put_chars(w@.take(i as int), style, cont as nat),
                decreases w@.len() - i,
            {
                assert(w@.take(i + 1).drop_last() =~= w@.take(i as int));
                self.put_char(w[i], style, cont);
                i += 1;
            }
        } else {
            let text: String = string_of(w, 0, w.len());
            assert(text@ =~= w@);
            self.put(Span::styled(text, style));
            self.row_w = plus_of(self.row_w, word_w);
        }
    }

    fn put_space(&mut self)
        requires
            old(self).rows@.len() > 0,
        ensures
            final(self).model() == old(self).model().put_space(),
            final(self).rows@.len() > 0,
    {
        match self.space.take() {
            Some(sp) => {
                self.put(sp);
            },
            None => {},
        }
    }

    fn put_white(&mut self, c: char, style: Style, cont: usize)
        requires
            old(self).rows@.len() > 0,
        ensures
            final(self).model() == old(self).model().put_white(c, style, cont as nat),
            final(self).rows@.len() > 0,
    {
        let cw: usize = cells_of(c);
        if plus_of(self.row_w, cw) > self.budget {
            self.space = None;
            self.next_row(cont);
        } else {
            self.put_space();
            let mut s: String = String::new();
            s.push(c);
            assert(s@ =~= seq![c]);
            self.space = Some(Span::styled(s, style));
            self.row_w = plus_of(self.row_w, cw);
        }
    }

    fn through_span(&mut self, s: &Span, cont: usize)
        requires
            old(self).rows@.len() > 0,
        ensures
            final(self).model() == old(self).model().through_span(s.deep_view(), cont as nat),
            final(self).rows@.len() > 0,
    {
        broadcast use group_deep;

        let ghost st = self.model();
        let v: Vec<char> = chars_of(s.content.as_str());
        let mut word: Vec<char> = Vec::new();
        let mut word_w: usize = 0;
        let mut i: usize = 0;
        while i < v.len()
            invariant
                i <= v@.len(),
                v@ == s.content@,
                self.rows@.len() > 0,
                word_w == word_cells(word@),
                (self.model(), word@) == st.through(v@.take(i as int), s.style, cont as nat),
            decreases v@.len() - i,
        {
            assert(v@.take(i + 1).drop_last() =~= v@.take(i as int));
            let c: char = v[i];
            if is_whitespace(c) {
                self.put_word(&word, word_w, s.style, cont);
                self.put_white(c, s.style, cont);
                word.clear();
                word_w = 0;
                assert(word@ =~= Seq::<char>::empty());
            } else {
                self.put_space();
                let ghost w0 = word@;
                word.push(c);
                assert(word@.drop_last() =~= w0);
                word_w = plus_of(word_w, cells_of(c));
            }
            i += 1;
        }
        self.put_word(&word, word_w, s.style, cont);
    }
}

/// Whether spans take at most `width` cells.
fn total_cells(spans: &Vec<Span>) -> (r: usize)
    ensures
        r == spans_cells(deep(spans@)),
{
    broadcast use group_deep;

    let ghost all = deep(spans@);
    let mut total: usize = 0;
    let mut i: usize = 0;
    while i < spans.len()
        invariant
            i <= spans@.len(),
            all == deep(spans@),
            total == spans_cells(all.take(i as int)),
        decreases spans@.len() - i,
    {
        assert(all.take(i + 1).drop_last() =~= all.take(i as int));
        assert(all[i as int] == spans@[i as int].deep_view());
        total = plus_of(total, text_width(spans[i].content.as_str()));
        i += 1;
    }
    total
}

/// Wrap one line into rows of at most `width` cells; rows after the first are
/// indented.
pub fn wrap_line_spans(l: &Line, width: usize, indent: usize) -> (r: Vec<Line>)
    requires
        indent < usize::MAX,
    ensures
        deep(r@) == wrapped(l.deep_view(), width as nat, indent as nat),
{
    broadcast use group_deep;

    let mut out: Vec<Line> = Vec::new();
    if total_cells(&l.spans) <= width {
        out.push(l.copy());
        assert(deep(out@) =~= seq![l.deep_view()]);
        return out;
    }
    let cont: usize = if width > indent + 1 {
        width - indent
    } else {
        1
    };
    let ghost all = deep(l.spans@);
    let mut rows: Vec<Vec<Span>> = Vec::new();
    rows.push(Vec::new());
    let mut st: Wrap = Wrap { rows, row_w: 0, budget: width, space: None };
    assert(st.model().rows =~= first_row(width as nat).rows);
    let mut i: usize = 0;
    while i < l.spans.len()
        invariant
            i <= l.spans@.len(),
            all == deep(l.spans@),
            st.rows@.len() > 0,
            st.model() == first_row(width as nat).through_spans(all.take(i as int), cont as nat),
        decreases l.spans@.len() - i,
    {
        assert(all.take(i + 1).drop_last() =~= all.take(i as int));
        assert(all[i as int] == l.spans@[i as int].deep_view());
        st.through_span(&l.spans[i], cont);
        i += 1;
    }
    st.put_space();
    let ghost last = st.model();
    let ghost want = wrapped(l.deep_view(), width as nat, indent as nat);
    assert(want =~= Seq::new(
        last.rows.len(),
        |i: int| row_as_line(last.rows[i], i, indent as nat, l.style),
    ));
    let mut k: usize = 0;
    while k < st.rows.len()
        invariant
            k <= st.rows@.len(),
            last == st.model(),
            want == Seq::new(
                last.rows.len(),
                |i: int| row_as_line(last.rows[i], i, indent as nat, l.style),
            ),
            deep(out@) == want.take(k as int),
        decreases st.rows@.len() - k,
    {
        let mut spans: Vec<Span> = Vec::new();
        if k > 0 {
            spans.push(Span::raw(repeat_char(' ', indent)));
        }
        let mut row: Vec<Span> = copy_spans(&st.rows[k]);
        let ghost lead = deep(spans@);
        let ghost rv = deep(row@);
        spans.append(&mut row);
        proof {
            assert(deep(spans@) =~= lead + rv);
            assert(last.rows[k as int] == rv);
            assert(deep(spans@) =~= row_as_line(rv, k as int, indent as nat, l.style).spans);
        }
        let row_line: Line = Line { spans, style: l.style };
        assert(row_line.deep_view() == want[k as int]);
        out.push(row_line);
        assert(want.take(k + 1) =~= want.take(k as int).push(want[k as int]));
        k += 1;
    }
    out
}

// ---- wrapping a document --------------------------------------------------------------------

/// A document wrapped to a width, and the maps between its lines and its rows.
#[derive(Debug)]
pub struct WrappedDoc {
    pub text: Vec<Line>,
    /// For each row, the line it comes from.
    pub row_to_line: Vec<usize>,
    /// For each line, the row it starts on.
    pub line_to_row: Vec<usize>,
}

/// The rows of one line; without a width, the line itself.
pub open spec fn rows_of_line(l: LineV, width: nat) -> Seq<LineV> {
    if width == 0 {
        seq![l]
    } else {
        wrapped(l, width, GUTTER_CHARS as nat)
    }
}

pub open spec fn all_rows(lines: Seq<LineV>, width: nat) -> Seq<LineV>
    decreases lines.len(),
{
    if lines.len() == 0 {
        Seq::empty()
    } else {
        all_rows(lines.drop_last(), width) + rows_of_line(lines.last(), width)
    }
}

pub open spec fn all_row_lines(lines: Seq<LineV>, width: nat) -> Seq<usize>
    decreases lines.len(),
{
    if lines.len() == 0 {
        Seq::empty()
    } else {
        all_row_lines(lines.drop_last(), width) + Seq::new(
            rows_of_line(lines.last(), width).len(),
            |i: int| (lines.len() - 1) as usize,
        )
    }
}

pub open spec fn all_line_rows(lines: Seq<LineV>, width: nat) -> Seq<usize>
    decreases lines.len(),
{
    if lines.len() == 0 {
        Seq::empty()
    } else {
        all_line_rows(lines.drop_last(), width).push(
            all_rows(lines.drop_last(), width).len() as usize,
        )
    }
}

/// Wrap a document. Rows that continue a line are indented by the gutter.
pub fn wrap_diff_text(text: &Vec<Line>, width: usize) -> (r: WrappedDoc)
    ensures
        deep(r.text@) == all_rows(deep(text@), width as nat),
        r.row_to_line@ == all_row_lines(deep(text@), width as nat),
        r.line_to_row@ == all_line_rows(deep(text@), width as nat),
{
    broadcast use group_deep;

    let ghost all = deep(text@);
    let mut out: Vec<Line> = Vec::new();
    let mut row_to_line: Vec<usize> = Vec::new();
    let mut line_to_row: Vec<usize> = Vec::new();
    let mut i: usize = 0;
    while i < text.len()
        invariant
            i <= text@.len(),
            all == deep(text@),
            deep(out@) == all_rows(all.take(i as int), width as nat),
            row_to_line@ == all_row_lines(all.take(i as int), width as nat),
            line_to_row@ == all_line_rows(all.take(i as int), width as nat),
        decreases text@.len() - i,
    {
        assert(all.take(i + 1).drop_last() =~= all.take(i as int));
        assert(all[i as int] == text@[i as int].deep_view());
        assert(out@.len() == deep(out@).len());
        line_to_row.push(out.len());
        let mut rows: Vec<Line> = if width == 0 {
            let mut one: Vec<Line> = Vec::new();
            one.push(text[i].copy());
            assert(deep(one@) =~= seq![text@[i as int].deep_view()]);
            one
        } else {
            wrap_line_spans(&text[i], width, GUTTER_CHARS as usize)
        };
        let ghost rv = deep(rows@);
        let n: usize = rows.len();
        let ghost before = row_to_line@;
        let mut k: usize = 0;
        while k < n
            invariant
                k <= n,
                row_to_line@ == before + Seq::new(k as nat, |j: int| i),
            decreases n - k,
        {
            row_to_line.push(i);
            assert(row_to_line@ =~= before + Seq::new((k + 1) as nat, |j: int| i));
            k += 1;
        }
        let ghost lead = deep(out@);
        out.append(&mut rows);
        assert(deep(out@) =~= lead + rv);
        assert(row_to_line@ =~= all_row_lines(all.take(i + 1), width as nat));
        i += 1;
    }
    WrappedDoc { text: out, row_to_line, line_to_row }
}

} // verus!
