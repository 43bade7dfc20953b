//! What wrapping keeps.

use vstd::prelude::*;

use crate::rows::GUTTER_CHARS;
use crate::style::{painted, span, spans_text, LineV, SpanV, Style};
use crate::text::{is_white, rep};
use crate::wrap::{
    all_line_rows, all_row_lines, all_rows, cells, cont_width, first_row, plus, row_as_line,
    rows_of_line, spans_cells, word_cells, wrapped, WrapV,
};

verus! {

/// The characters that are not whitespace, with their styles.
pub open spec fn visible(p: Seq<(char, Style)>) -> Seq<(char, Style)>
    decreases p.len(),
{
    if p.len() == 0 {
        Seq::empty()
    } else if is_white(p.last().0) {
        visible(p.drop_last())
    } else {
        visible(p.drop_last()).push(p.last())
    }
}

/// The characters of several rows, one row after the other.
pub open spec fn rows_painted(rows: Seq<Seq<SpanV>>) -> Seq<(char, Style)>
    decreases rows.len(),
{
    if rows.len() == 0 {
        Seq::empty()
    } else {
        rows_painted(rows.drop_last()) + painted(rows.last())
    }
}

/// The characters of several lines, one line after the other.
pub open spec fn lines_painted(lines: Seq<LineV>) -> Seq<(char, Style)>
    decreases lines.len(),
{
    if lines.len() == 0 {
        Seq::empty()
    } else {
        lines_painted(lines.drop_last()) + painted(lines.last().spans)
    }
}

/// Characters in one style.
pub open spec fn styled(w: Seq<char>, style: Style) -> Seq<(char, Style)> {
    Seq::new(w.len(), |i: int| (w[i], style))
}

proof fn lemma_visible_add(a: Seq<(char, Style)>, b: Seq<(char, Style)>)
    ensures
        visible(a + b) == visible(a) + visible(b),
    decreases b.len(),
{
    if b.len() > 0 {
        lemma_visible_add(a, b.drop_last());
        assert((a + b).drop_last() =~= a + b.drop_last());
        if !is_white(b.last().0) {
            assert(visible(a) + visible(b.drop_last()).push(b.last()) =~= (visible(a) + visible(
                b.drop_last(),
            )).push(b.last()));
        }
    } else {
        assert(a + b =~= a);
        assert(visible(a) + visible(b) =~= visible(a));
    }
}

proof fn lemma_painted_push(row: Seq<SpanV>, s: SpanV)
    ensures
        painted(row.push(s)) == painted(row) + styled(s.content, s.style),
{
    assert(row.push(s).drop_last() =~= row);
    assert(row.push(s).last() == s);
    assert(painted(row.push(s)) =~= painted(row) + styled(s.content, s.style));
}

/// What a wrapping shows so far.
spec fn shown(st: WrapV) -> Seq<(char, Style)> {
    visible(rows_painted(st.rows))
}

/// There is a row, and the space held back is nothing to see.
spec fn sound(st: WrapV) -> bool {
    &&& st.rows.len() > 0
    &&& match st.space {
        Some(sp) => visible(styled(sp.content, sp.style)).len() == 0,
        None => true,
    }
}

proof fn lemma_put(st: WrapV, s: SpanV)
    requires
        st.rows.len() > 0,
    ensures
        shown(st.put(s)) == shown(st) + visible(styled(s.content, s.style)),
        st.put(s).rows.len() == st.rows.len(),
        sound(st) ==> sound(st.put(s)),
{
    let t = st.put(s);
    let p = styled(s.content, s.style);
    assert(t.rows.drop_last() =~= st.rows.drop_last());
    lemma_painted_push(st.rows.last(), s);
    assert(rows_painted(t.rows) =~= rows_painted(st.rows) + p);
    lemma_visible_add(rows_painted(st.rows), p);
}

proof fn lemma_next_row(st: WrapV, cont: nat)
    ensures
        shown(st.next_row(cont)) == shown(st),
        sound(st) ==> sound(st.next_row(cont)),
{
    let t = st.next_row(cont);
    assert(t.rows.drop_last() =~= st.rows);
    assert(rows_painted(t.rows) =~= rows_painted(st.rows));
}

proof fn lemma_put_char(st: WrapV, c: char, style: Style, cont: nat)
    requires
        sound(st),
    ensures
        shown(st.put_char(c, style, cont)) == shown(st) + visible(styled(seq![c], style)),
        sound(st.put_char(c, style, cont)),
{
    let mid = if plus(st.row_w, cells(c)) > st.budget && st.row_w > 0 {
        st.next_row(cont)
    } else {
        st
    };
    lemma_next_row(st, cont);
    lemma_put(mid, span(seq![c], style));
}

proof fn lemma_put_chars(st: WrapV, w: Seq<char>, style: Style, cont: nat)
    requires
        sound(st),
    ensures
        shown(st.put_chars(w, style, cont)) == shown(st) + visible(styled(w, style)),
        sound(st.put_chars(w, style, cont)),
    decreases w.len(),
{
    if w.len() > 0 {
        let init = w.drop_last();
        lemma_put_chars(st, init, style, cont);
        lemma_put_char(st.put_chars(init, style, cont), w.last(), style, cont);
        assert(styled(w, style) =~= styled(init, style) + styled(seq![w.last()], style));
        lemma_visible_add(styled(init, style), styled(seq![w.last()], style));
        assert(shown(st) + visible(styled(init, style)) + visible(styled(seq![w.last()], style))
            =~= shown(st) + (visible(styled(init, style)) + visible(
            styled(seq![w.last()], style),
        )));
    } else {
        assert(styled(w, style) =~= Seq::<(char, Style)>::empty());
        assert(shown(st) + visible(styled(w, style)) =~= shown(st));
    }
}

proof fn lemma_put_word(st: WrapV, w: Seq<char>, style: Style, cont: nat)
    requires
        sound(st),
    ensures
        shown(st.put_word(w, style, cont)) == shown(st) + visible(styled(w, style)),
        sound(st.put_word(w, style, cont)),
{
    if w.len() == 0 {
        assert(styled(w, style) =~= Seq::<(char, Style)>::empty());
        assert(shown(st) + visible(styled(w, style)) =~= shown(st));
    } else {
        let ww = word_cells(w);
        let mid = if plus(st.row_w, ww) > st.budget && st.row_w > 0 {
            WrapV { space: None, ..st.next_row(cont) }
        } else {
            st
        };
        lemma_next_row(st, cont);
        assert(shown(mid) == shown(st));
        if ww > mid.budget {
            lemma_put_chars(mid, w, style, cont);
        } else {
            lemma_put(mid, span(w, style));
        }
    }
}

proof fn lemma_put_space(st: WrapV)
    requires
        sound(st),
    ensures
        shown(st.put_space()) == shown(st),
        sound(st.put_space()),
        st.put_space().space is None,
{
    match st.space {
        Some(sp) => {
            lemma_put(st, sp);
            assert(visible(styled(sp.content, sp.style)) =~= Seq::<(char, Style)>::empty());
            assert(shown(st) + Seq::<(char, Style)>::empty() =~= shown(st));
        },
        None => {},
    }
}

proof fn lemma_put_white(st: WrapV, c: char, style: Style, cont: nat)
    requires
        sound(st),
        is_white(c),
    ensures
        shown(st.put_white(c, style, cont)) == shown(st),
        sound(st.put_white(c, style, cont)),
{
    lemma_next_row(st, cont);
    lemma_put_space(st);
    let p = styled(seq![c], style);
    assert(visible(p).len() == 0) by {
        reveal_with_fuel(visible, 2);
        assert(p.last().0 == c);
    }
}

proof fn lemma_through(st: WrapV, s: Seq<char>, style: Style, cont: nat)
    requires
        sound(st),
    ensures
        sound(st.through(s, style, cont).0),
        shown(st.through(s, style, cont).0) + visible(styled(st.through(s, style, cont).1, style))
            == shown(st) + visible(styled(s, style)),
    decreases s.len(),
{
    if s.len() > 0 {
        let init = s.drop_last();
        let c = s.last();
        lemma_through(st, init, style, cont);
        let (mid, w) = st.through(init, style, cont);
        let (after, w2) = st.through(s, style, cont);
        assert(styled(s, style).drop_last() =~= styled(init, style));
        assert(styled(s, style).last() == (c, style));
        if is_white(c) {
            lemma_put_word(mid, w, style, cont);
            lemma_put_white(mid.put_word(w, style, cont), c, style, cont);
            assert(styled(w2, style) =~= Seq::<(char, Style)>::empty());
            assert(shown(after) + visible(styled(w2, style)) =~= shown(after));
        } else {
            lemma_put_space(mid);
            assert(styled(w2, style).drop_last() =~= styled(w, style));
            assert(shown(mid) + visible(styled(w, style)).push((c, style)) =~= (shown(mid) + visible(
                styled(w, style),
            )).push((c, style)));
            assert(shown(st) + visible(styled(init, style)).push((c, style)) =~= (shown(st)
                + visible(styled(init, style))).push((c, style)));
        }
    } else {
        assert(styled(s, style) =~= Seq::<(char, Style)>::empty());
    }
}

proof fn lemma_through_spans(st: WrapV, spans: Seq<SpanV>, cont: nat)
    requires
        sound(st),
    ensures
        sound(st.through_spans(spans, cont)),
        shown(st.through_spans(spans, cont)) == shown(st) + visible(painted(spans)),
    decreases spans.len(),
{
    if spans.len() > 0 {
        let init = spans.drop_last();
        let s = spans.last();
        lemma_through_spans(st, init, cont);
        let mid = st.through_spans(init, cont);
        lemma_through(mid, s.content, s.style, cont);
        let (t, w) = mid.through(s.content, s.style, cont);
        lemma_put_word(t, w, s.style, cont);
        assert(painted(spans) =~= painted(init) + styled(s.content, s.style));
        lemma_visible_add(painted(init), styled(s.content, s.style));
        assert(shown(st) + visible(painted(init)) + visible(styled(s.content, s.style)) =~= shown(st)
            + (visible(painted(init)) + visible(styled(s.content, s.style))));
    } else {
        assert(shown(st) + visible(painted(spans)) =~= shown(st));
    }
}

proof fn lemma_indent_unseen(row: Seq<SpanV>, n: nat)
    ensures
        visible(painted(seq![span(rep(' ', n), Style::plain())] + row)) == visible(painted(row)),
    decreases row.len(),
{
    let lead = seq![span(rep(' ', n), Style::plain())];
    if row.len() > 0 {
        lemma_indent_unseen(row.drop_last(), n);
        assert((lead + row).drop_last() =~= lead + row.drop_last());
        let s = row.last();
        assert(painted(lead + row) =~= painted(lead + row.drop_last()) + styled(s.content, s.style));
        assert(painted(row) =~= painted(row.drop_last()) + styled(s.content, s.style));
        lemma_visible_add(painted(lead + row.drop_last()), styled(s.content, s.style));
        lemma_visible_add(painted(row.drop_last()), styled(s.content, s.style));
    } else {
        assert(lead + row =~= lead);
        lemma_painted_push(Seq::<SpanV>::empty(), span(rep(' ', n), Style::plain()));
        assert(Seq::<SpanV>::empty().push(span(rep(' ', n), Style::plain())) =~= lead);
        assert(painted(lead) =~= styled(rep(' ', n), Style::plain()));
        lemma_spaces_unseen(n);
    }
}

proof fn lemma_spaces_unseen(n: nat)
    ensures
        visible(styled(rep(' ', n), Style::plain())).len() == 0,
    decreases n,
{
    let p = styled(rep(' ', n), Style::plain());
    if n > 0 {
        lemma_spaces_unseen((n - 1) as nat);
        assert(p.drop_last() =~= styled(rep(' ', (n - 1) as nat), Style::plain()));
        assert(p.last().0 == ' ');
    }
}

proof fn lemma_rows_to_lines(rows: Seq<Seq<SpanV>>, lines: Seq<LineV>, indent: nat, style: Style)
    requires
        lines == Seq::new(rows.len(), |i: int| row_as_line(rows[i], i, indent, style)),
    ensures
        visible(lines_painted(lines)) == visible(rows_painted(rows)),
    decreases rows.len(),
{
    if rows.len() > 0 {
        let r = rows.drop_last();
        let l = lines.drop_last();
        assert(l =~= Seq::new(r.len(), |i: int| row_as_line(r[i], i, indent, style)));
        lemma_rows_to_lines(r, l, indent, style);
        lemma_indent_unseen(rows.last(), indent);
        lemma_visible_add(lines_painted(l), painted(lines.last().spans));
        lemma_visible_add(rows_painted(r), painted(rows.last()));
    }
}

/// Wrapping drops nothing that can be seen: the characters of the rows that
/// are not whitespace are those of the line, in order and in their styles.
pub proof fn law_wrapping_loses_nothing_visible(l: LineV, width: nat, indent: nat)
    ensures
        visible(lines_painted(wrapped(l, width, indent))) == visible(painted(l.spans)),
{
    let cont = cont_width(width, indent);
    if spans_cells(l.spans) <= width {
        assert(seq![l].drop_last() =~= Seq::<LineV>::empty());
        reveal_with_fuel(lines_painted, 2);
        assert(lines_painted(seq![l]) =~= painted(l.spans));
    } else {
        let st0 = first_row(width);
        assert(st0.rows.drop_last() =~= Seq::<Seq<SpanV>>::empty());
        assert(rows_painted(st0.rows) =~= Seq::<(char, Style)>::empty()) by {
            reveal_with_fuel(rows_painted, 2);
        }
        lemma_through_spans(st0, l.spans, cont);
        let st = st0.through_spans(l.spans, cont);
        lemma_put_space(st);
        lemma_rows_to_lines(
            st.put_space().rows,
            wrapped(l, width, indent),
            indent,
            l.style,
        );
        assert(shown(st0) + visible(painted(l.spans)) =~= visible(painted(l.spans)));
    }
}

// ---- widths --------------------------------------------------------------------------

proof fn lemma_word_cells_add(a: Seq<char>, b: Seq<char>)
    ensures
        word_cells(a + b) == plus(word_cells(a), word_cells(b)),
    decreases b.len(),
{
    lemma_word_cells_max(a);
    if b.len() > 0 {
        lemma_word_cells_add(a, b.drop_last());
        lemma_word_cells_max(b.drop_last());
        assert((a + b).drop_last() =~= a + b.drop_last());
    } else {
        assert(a + b =~= a);
    }
}

proof fn lemma_word_cells_max(a: Seq<char>)
    ensures
        word_cells(a) <= usize::MAX,
    decreases a.len(),
{
    if a.len() > 0 {
        lemma_word_cells_max(a.drop_last());
    }
}

/// The cells that a row may take.
pub open spec fn room(i: int, width: nat, cont: nat) -> nat {
    if i == 0 {
        width
    } else {
        cont
    }
}

/// No row takes more than its room, and the last one no more than is counted.
spec fn fits(st: WrapV, width: nat, cont: nat) -> bool {
    &&& st.rows.len() > 0
    &&& st.budget == room(st.rows.len() - 1, width, cont)
    &&& st.row_w <= st.budget
    &&& forall|i: int|
        0 <= i < st.rows.len() - 1 ==> word_cells(spans_text(#[trigger] st.rows[i])) <= room(
            i,
            width,
            cont,
        )
    &&& plus(
        word_cells(spans_text(st.rows.last())),
        match st.space {
            Some(sp) => word_cells(sp.content),
            None => 0,
        },
    ) <= st.row_w
}

/// No character is wider than a row.
pub open spec fn narrow(s: Seq<char>, width: nat, cont: nat) -> bool {
    forall|i: int| 0 <= i < s.len() ==> cells(#[trigger] s[i]) <= width && cells(s[i]) <= cont
}

proof fn lemma_last_text(st: WrapV, s: SpanV)
    requires
        st.rows.len() > 0,
    ensures
        word_cells(spans_text(st.put(s).rows.last())) == plus(
            word_cells(spans_text(st.rows.last())),
            word_cells(s.content),
        ),
        forall|i: int| 0 <= i < st.rows.len() - 1 ==> st.put(s).rows[i] == #[trigger] st.rows[i],
        st.put(s).rows.len() == st.rows.len(),
{
    let row = st.rows.last();
    assert(row.push(s).drop_last() =~= row);
    assert(st.put(s).rows.last() == row.push(s));
    lemma_word_cells_add(spans_text(row), s.content);
}

proof fn lemma_fits_next(st: WrapV, width: nat, cont: nat)
    requires
        fits(st, width, cont),
        st.rows.len() >= 1,
    ensures
        fits(WrapV { space: None, ..st.next_row(cont) }, width, cont),
        st.space is None ==> fits(st.next_row(cont), width, cont),
{
    let t = st.next_row(cont);
    lemma_word_cells_max(spans_text(st.rows.last()));
    assert(word_cells(spans_text(st.rows.last())) <= st.row_w);
    assert forall|i: int| 0 <= i < t.rows.len() - 1 implies word_cells(spans_text(#[trigger] t.rows[i]))
        <= room(i, width, cont) by {
        if i < st.rows.len() - 1 {
            assert(t.rows[i] == st.rows[i]);
        } else {
            assert(t.rows[i] == st.rows.last());
        }
    }
    assert(t.rows.last() =~= Seq::<SpanV>::empty());
    assert(word_cells(spans_text(t.rows.last())) == 0);
}

proof fn lemma_one_char(c: char)
    ensures
        word_cells(seq![c]) == cells(c),
{
    reveal_with_fuel(word_cells, 2);
    assert(seq![c].drop_last() =~= Seq::<char>::empty());
}

proof fn lemma_fits_char(st: WrapV, c: char, style: Style, width: nat, cont: nat)
    requires
        fits(st, width, cont),
        st.space is None,
        cells(c) <= width,
        cells(c) <= cont,
    ensures
        fits(st.put_char(c, style, cont), width, cont),
        st.put_char(c, style, cont).space is None,
{
    let mid = if plus(st.row_w, cells(c)) > st.budget && st.row_w > 0 {
        st.next_row(cont)
    } else {
        st
    };
    lemma_fits_next(st, width, cont);
    lemma_last_text(mid, span(seq![c], style));
    lemma_one_char(c);
    lemma_word_cells_max(spans_text(mid.rows.last()));
    let t = st.put_char(c, style, cont);
    assert forall|i: int| 0 <= i < t.rows.len() - 1 implies word_cells(spans_text(#[trigger] t.rows[i]))
        <= room(i, width, cont) by {
        assert(t.rows[i] == mid.rows[i]);
    }
}

proof fn lemma_fits_chars(st: WrapV, w: Seq<char>, style: Style, width: nat, cont: nat)
    requires
        fits(st, width, cont),
        st.space is None,
        narrow(w, width, cont),
    ensures
        fits(st.put_chars(w, style, cont), width, cont),
        st.put_chars(w, style, cont).space is None,
    decreases w.len(),
{
    if w.len() > 0 {
        let init = w.drop_last();
        assert forall|i: int| 0 <= i < init.len() implies cells(#[trigger] init[i]) <= width && cells(
            init[i],
        ) <= cont by {
            assert(init[i] == w[i]);
        }
        lemma_fits_chars(st, init, style, width, cont);
        assert(cells(w[w.len() - 1]) <= width);
        lemma_fits_char(st.put_chars(init, style, cont), w.last(), style, width, cont);
    }
}

proof fn lemma_fits_word(st: WrapV, w: Seq<char>, style: Style, width: nat, cont: nat)
    requires
        fits(st, width, cont),
        w.len() > 0 ==> st.space is None,
        narrow(w, width, cont),
    ensures
        fits(st.put_word(w, style, cont), width, cont),
{
    if w.len() > 0 {
        let ww = word_cells(w);
        let mid = if plus(st.row_w, ww) > st.budget && st.row_w > 0 {
            WrapV { space: None, ..st.next_row(cont) }
        } else {
            st
        };
        lemma_fits_next(st, width, cont);
        if ww > mid.budget {
            lemma_fits_chars(mid, w, style, width, cont);
        } else {
            lemma_last_text(mid, span(w, style));
            lemma_word_cells_max(spans_text(mid.rows.last()));
            let t = st.put_word(w, style, cont);
            assert forall|i: int|
                0 <= i < t.rows.len() - 1 implies word_cells(spans_text(#[trigger] t.rows[i])) <= room(
                i,
                width,
                cont,
            ) by {
                assert(t.rows[i] == mid.rows[i]);
            }
        }
    }
}

proof fn lemma_fits_space(st: WrapV, width: nat, cont: nat)
    requires
        fits(st, width, cont),
    ensures
        fits(st.put_space(), width, cont),
        st.put_space().space is None,
        st.put_space().row_w == st.row_w,
        st.put_space().budget == st.budget,
{
    match st.space {
        Some(sp) => {
            lemma_last_text(st, sp);
            let t = st.put_space();
            assert forall|i: int|
                0 <= i < t.rows.len() - 1 implies word_cells(spans_text(#[trigger] t.rows[i])) <= room(
                i,
                width,
                cont,
            ) by {
                assert(t.rows[i] == st.rows[i]);
            }
            lemma_word_cells_max(spans_text(t.rows.last()));
        },
        None => {},
    }
}

proof fn lemma_fits_white(st: WrapV, c: char, style: Style, width: nat, cont: nat)
    requires
        fits(st, width, cont),
    ensures
        fits(st.put_white(c, style, cont), width, cont),
{
    lemma_fits_next(st, width, cont);
    lemma_fits_space(st, width, cont);
    lemma_one_char(c);
    let mid = st.put_space();
    lemma_word_cells_max(spans_text(mid.rows.last()));
    let t = st.put_white(c, style, cont);
    if plus(st.row_w, cells(c)) > st.budget {
    } else {
        assert(t.rows == mid.rows);
        assert forall|i: int| 0 <= i < t.rows.len() - 1 implies word_cells(spans_text(#[trigger] t.rows[i]))
            <= room(i, width, cont) by {
            assert(t.rows[i] == mid.rows[i]);
        }
    }
}

proof fn lemma_fits_through(st: WrapV, s: Seq<char>, style: Style, width: nat, cont: nat)
    requires
        fits(st, width, cont),
        narrow(s, width, cont),
    ensures
        fits(st.through(s, style, cont).0, width, cont),
        narrow(st.through(s, style, cont).1, width, cont),
        st.through(s, style, cont).1.len() > 0 ==> st.through(s, style, cont).0.space is None,
    decreases s.len(),
{
    if s.len() > 0 {
        let init = s.drop_last();
        let c = s[s.len() - 1];
        assert forall|i: int| 0 <= i < init.len() implies cells(#[trigger] init[i]) <= width && cells(
            init[i],
        ) <= cont by {
            assert(init[i] == s[i]);
        }
        lemma_fits_through(st, init, style, width, cont);
        let (mid, w) = st.through(init, style, cont);
        assert(cells(c) <= width && cells(c) <= cont);
        if is_white(c) {
            lemma_fits_word(mid, w, style, width, cont);
            lemma_fits_white(mid.put_word(w, style, cont), c, style, width, cont);
        } else {
            lemma_fits_space(mid, width, cont);
        }
    }
}

proof fn lemma_fits_spans(st: WrapV, spans: Seq<SpanV>, width: nat, cont: nat)
    requires
        fits(st, width, cont),
        narrow(spans_text(spans), width, cont),
    ensures
        fits(st.through_spans(spans, cont), width, cont),
    decreases spans.len(),
{
    if spans.len() > 0 {
        let init = spans.drop_last();
        let s = spans.last();
        let all = spans_text(spans);
        let head = spans_text(init);
        assert forall|i: int| 0 <= i < head.len() implies cells(#[trigger] head[i]) <= width && cells(
            head[i],
        ) <= cont by {
            assert(all[i] == head[i]);
        }
        assert forall|i: int| 0 <= i < s.content.len() implies cells(#[trigger] s.content[i]) <= width
            && cells(s.content[i]) <= cont by {
            assert(all[head.len() + i] == s.content[i]);
        }
        lemma_fits_spans(st, init, width, cont);
        let mid = st.through_spans(init, cont);
        lemma_fits_through(mid, s.content, s.style, width, cont);
        let (t, w) = mid.through(s.content, s.style, cont);
        lemma_fits_word(t, w, s.style, width, cont);
    }
}

/// A line that has to be wrapped comes out in rows that fit: the first within
/// the width, the others within what the indent leaves of it. Where a single
/// character is wider than that, it is shown all the same.
pub proof fn law_wrapped_rows_fit(l: LineV, width: nat, indent: nat, i: int)
    requires
        spans_cells(l.spans) > width,
        narrow(spans_text(l.spans), width, cont_width(width, indent)),
        0 <= i < wrapped(l, width, indent).len(),
    ensures
        ({
            let row = wrapped(l, width, indent)[i].spans;
            let content = if i > 0 {
                row.skip(1)
            } else {
                row
            };
            word_cells(spans_text(content)) <= room(i, width, cont_width(width, indent))
        }),
{
    let cont = cont_width(width, indent);
    let st0 = first_row(width);
    assert(st0.rows.last() =~= Seq::<SpanV>::empty());
    assert(word_cells(spans_text(st0.rows.last())) == 0);
    lemma_fits_spans(st0, l.spans, width, cont);
    let st = st0.through_spans(l.spans, cont);
    lemma_fits_space(st, width, cont);
    let done = st.put_space();
    let row = done.rows[i];
    if i > 0 {
        assert(wrapped(l, width, indent)[i].spans.skip(1) =~= row);
    }
    lemma_word_cells_max(spans_text(done.rows.last()));
    if i == done.rows.len() - 1 {
        assert(row == done.rows.last());
    }
}

// ---- the maps between lines and rows ------------------------------------------------------

proof fn lemma_rows_nonempty(st: WrapV, spans: Seq<SpanV>, cont: nat)
    requires
        sound(st),
    ensures
        st.through_spans(spans, cont).put_space().rows.len() > 0,
{
    lemma_through_spans(st, spans, cont);
    lemma_put_space(st.through_spans(spans, cont));
}

/// Every line has a row.
pub proof fn lemma_line_has_a_row(l: LineV, width: nat)
    ensures
        rows_of_line(l, width).len() > 0,
{
    if width > 0 && spans_cells(l.spans) > width {
        let st0 = first_row(width);
        lemma_rows_nonempty(st0, l.spans, cont_width(width, GUTTER_CHARS as nat));
    }
}

proof fn lemma_maps_len(lines: Seq<LineV>, width: nat)
    ensures
        all_row_lines(lines, width).len() == all_rows(lines, width).len(),
        all_line_rows(lines, width).len() == lines.len(),
    decreases lines.len(),
{
    if lines.len() > 0 {
        lemma_maps_len(lines.drop_last(), width);
    }
}

/// The row that a line starts on belongs to that line, and every row belongs
/// to a line that starts at or before it, with the next line after it.
pub proof fn law_rows_and_lines_agree(lines: Seq<LineV>, width: nat, i: int)
    requires
        0 <= i < lines.len(),
        all_rows(lines, width).len() <= usize::MAX,
        lines.len() <= usize::MAX,
    ensures
        all_row_lines(lines, width).len() == all_rows(lines, width).len(),
        all_line_rows(lines, width).len() == lines.len(),
        0 <= all_line_rows(lines, width)[i] < all_rows(lines, width).len(),
        all_row_lines(lines, width)[all_line_rows(lines, width)[i] as int] == i,
        forall|r: int|
            0 <= r < all_rows(lines, width).len() ==> {
                &&& (#[trigger] all_row_lines(lines, width)[r]) < lines.len()
                &&& all_line_rows(lines, width)[all_row_lines(lines, width)[r] as int] <= r
                &&& all_row_lines(lines, width)[r] + 1 < lines.len() ==> r < all_line_rows(
                    lines,
                    width,
                )[all_row_lines(lines, width)[r] + 1]
            },
        i > 0 ==> all_line_rows(lines, width)[i - 1] < all_line_rows(lines, width)[i],
    decreases lines.len(),
{
    let init = lines.drop_last();
    let n = all_rows(init, width).len();
    lemma_maps_len(lines, width);
    lemma_maps_len(init, width);
    lemma_line_has_a_row(lines.last(), width);
    let rl = all_row_lines(lines, width);
    let lr = all_line_rows(lines, width);
    if i < init.len() {
        law_rows_and_lines_agree(init, width, i);
        assert(lr[i] == all_line_rows(init, width)[i]);
        assert(rl[lr[i] as int] == all_row_lines(init, width)[lr[i] as int]);
    } else {
        assert(lr[i] == n);
        if init.len() > 0 {
            law_rows_and_lines_agree(init, width, init.len() - 1);
            assert(lr[i - 1] == all_line_rows(init, width)[i - 1]);
        }
    }
    assert forall|r: int| 0 <= r < all_rows(lines, width).len() implies {
        &&& (#[trigger] rl[r]) < lines.len()
        &&& lr[rl[r] as int] <= r
        &&& rl[r] + 1 < lines.len() ==> r < lr[rl[r] + 1]
    } by {
        if r < n {
            if init.len() > 0 {
                law_rows_and_lines_agree(init, width, 0);
                assert(rl[r] == all_row_lines(init, width)[r]);
                assert(all_row_lines(init, width)[r] < init.len());
                assert(lr[rl[r] as int] == all_line_rows(init, width)[rl[r] as int]);
                if rl[r] + 1 < init.len() {
                    assert(lr[rl[r] + 1] == all_line_rows(init, width)[rl[r] + 1]);
                } else {
                    assert(lr[init.len() as int] == n);
                }
            }
        } else {
            assert(rl[r] == (lines.len() - 1) as usize);
            assert(lr[lines.len() - 1] == n);
        }
    }
}

/// A line that fits stays as it is.
pub proof fn law_a_line_that_fits_is_left_alone(l: LineV, width: nat, indent: nat)
    requires
        spans_cells(l.spans) <= width,
    ensures
        wrapped(l, width, indent) == seq![l],
{
}

/// Every row of a wrapped line but the first is moved in, and all have the line's
/// style.
pub proof fn law_rows_that_go_on_are_moved_in(l: LineV, width: nat, indent: nat, i: int)
    requires
        spans_cells(l.spans) > width,
        0 <= i < wrapped(l, width, indent).len(),
    ensures
        wrapped(l, width, indent)[i].style == l.style,
        i > 0 ==> wrapped(l, width, indent)[i].spans.len() > 0 && wrapped(l, width, indent)[i].spans[0].content
            == Seq::new(indent, |k: int| ' '),
        width > indent + 1 ==> cont_width(width, indent) + indent == width,
{
    if i > 0 {
        assert(crate::text::rep(' ', indent) =~= Seq::new(indent, |k: int| ' '));
    }
}

/// A word stays on its row where it fits there. Where it does not, it goes to the next
/// row, whole if that has room for it.
pub proof fn law_a_word_moves_only_where_it_does_not_fit(st: WrapV, w: Seq<char>, style: Style, cont: nat)
    requires
        st.rows.len() > 0,
        w.len() > 0,
        st.row_w <= st.budget,
        st.budget < usize::MAX,
    ensures
        ({
            let after = st.put_word(w, style, cont);
            let word = crate::style::span(w, style);
            &&& st.row_w + word_cells(w) <= st.budget ==> after.rows == st.rows.drop_last().push(
                st.rows.last().push(word),
            ) && after.row_w == st.row_w + word_cells(w) && after.budget == st.budget
            &&& st.row_w + word_cells(w) > st.budget && st.row_w > 0 && word_cells(w) <= cont ==> after.rows
                == st.rows.push(seq![word]) && after.budget == cont && after.space is None
        }),
{
    let after = st.put_word(w, style, cont);
    let word = crate::style::span(w, style);
    let next = st.next_row(cont);
    assert(next.rows.drop_last() =~= st.rows);
    assert(Seq::<SpanV>::empty().push(word) =~= seq![word]);
    if st.row_w + word_cells(w) > st.budget && st.row_w > 0 && word_cells(w) <= cont {
        assert(after.rows =~= st.rows.push(seq![word]));
    }
}

/// Between two words on one row their space stands.
pub proof fn law_the_space_between_words_stays(st: WrapV, c: char, w: Seq<char>, style: Style, cont: nat)
    requires
        st.rows.len() > 0,
        st.space is None,
        w.len() > 0,
        st.row_w + cells(c) + word_cells(w) <= st.budget < usize::MAX,
    ensures
        ({
            let after = st.put_white(c, style, cont).put_space().put_word(w, style, cont);
            after.rows == st.rows.drop_last().push(
                st.rows.last().push(crate::style::span(seq![c], style)).push(crate::style::span(w, style)),
            )
        }),
{
    let a = st.put_white(c, style, cont).put_space();
    let row = st.rows.last().push(crate::style::span(seq![c], style));
    assert(a.rows == st.rows.drop_last().push(row));
    assert(a.rows.drop_last() =~= st.rows.drop_last());
    assert(a.rows.last() == row);
}

/// Words are taken one after the other: a blank ends a word, and any other character
/// goes on with it.
pub proof fn law_a_blank_ends_a_word(st: WrapV, s: Seq<char>, c: char, style: Style, cont: nat)
    ensures
        ({
            let (before, word) = st.through(s, style, cont);
            let (after, next) = st.through(s.push(c), style, cont);
            &&& is_white(c) ==> after == before.put_word(word, style, cont).put_white(c, style, cont)
                && next.len() == 0
            &&& !is_white(c) ==> after == before.put_space() && next == word.push(c)
        }),
{
    assert(s.push(c).drop_last() =~= s);
}

} // verus!
