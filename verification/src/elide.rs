//! Texts cut or wrapped to a number of cells.

use vstd::prelude::*;

use crate::style::{line, span, spans_text, Line, LineV, Span, Style};
use crate::text::{chars_of, concat2, deep, group_deep, string_of};
use crate::wrap::{cells, cells_of, text_cells, text_width, wrap_line_spans, wrapped};

verus! {

/// The longest end of a text that takes at most `room` cells.
pub open spec fn end_within(s: Seq<char>, room: nat) -> Seq<char>
    decreases s.len(),
{
    if s.len() == 0 || cells(s.last()) > room {
        Seq::empty()
    } else {
        end_within(s.drop_last(), (room - cells(s.last())) as nat).push(s.last())
    }
}

/// The longest start of a text that takes at most `room` cells.
pub open spec fn start_within(s: Seq<char>, room: nat) -> Seq<char>
    decreases s.len(),
{
    if s.len() == 0 || cells(s[0]) > room {
        Seq::empty()
    } else {
        seq![s[0]] + start_within(s.skip(1), (room - cells(s[0])) as nat)
    }
}

/// A text cut at its start to `max` cells, with an ellipsis where it was cut.
pub open spec fn cut_head(s: Seq<char>, max: nat) -> Seq<char> {
    if text_cells(s) <= max {
        s
    } else if max == 0 {
        Seq::empty()
    } else {
        "…"@ + end_within(s, (max - 1) as nat)
    }
}

/// A text cut at its end to `max` cells, with an ellipsis where it was cut.
pub open spec fn cut_tail(s: Seq<char>, max: nat) -> Seq<char> {
    if text_cells(s) <= max {
        s
    } else if max == 0 {
        Seq::empty()
    } else {
        start_within(s, (max - 1) as nat) + "…"@
    }
}

pub fn elide_head(s: &str, max: usize) -> (r: String)
    ensures
        r@ == cut_head(s@, max as nat),
{
    if text_width(s) <= max {
        return s.to_owned();
    }
    if max == 0 {
        return String::new();
    }
    let v: Vec<char> = chars_of(s);
    let n: usize = v.len();
    let mut room: usize = max - 1;
    let mut i: usize = n;
    let ghost whole = end_within(s@, (max - 1) as nat);
    proof {
        assert(v@.take(n as int) =~= v@);
        assert(whole =~= whole + v@.skip(n as int));
    }
    while i > 0 && cells_of(v[i - 1]) <= room
        invariant
            i <= n == v@.len(),
            v@ == s@,
            whole == end_within(v@.take(i as int), room as nat) + v@.skip(i as int),
        decreases i,
    {
        let ghost pre = v@.take(i as int);
        assert(pre.drop_last() =~= v@.take(i - 1));
        assert(pre.last() == v@[i - 1]);
        assert(end_within(pre.drop_last(), (room - cells(v@[i - 1])) as nat).push(v@[i - 1]) + v@.skip(
            i as int,
        ) =~= end_within(pre.drop_last(), (room - cells(v@[i - 1])) as nat) + v@.skip(i - 1));
        room -= cells_of(v[i - 1]);
        i -= 1;
    }
    proof {
        if i > 0 {
            assert(v@.take(i as int).last() == v@[i - 1]);
        }
        assert(end_within(v@.take(i as int), room as nat) =~= Seq::<char>::empty());
        assert(whole =~= v@.skip(i as int));
    }
    let tail: String = string_of(&v, i, n);
    assert(tail@ =~= whole);
    concat2("…", tail.as_str())
}

pub fn elide_tail(s: &str, max: usize) -> (r: String)
    ensures
        r@ == cut_tail(s@, max as nat),
{
    if text_width(s) <= max {
        return s.to_owned();
    }
    if max == 0 {
        return String::new();
    }
    let v: Vec<char> = chars_of(s);
    let n: usize = v.len();
    let mut room: usize = max - 1;
    let mut i: usize = 0;
    let ghost whole = start_within(s@, (max - 1) as nat);
    proof {
        assert(v@.skip(0) =~= v@);
        assert(whole =~= v@.take(0) + whole);
    }
    while i < n && cells_of(v[i]) <= room
        invariant
            i <= n == v@.len(),
            v@ == s@,
            whole == v@.take(i as int) + start_within(v@.skip(i as int), room as nat),
        decreases n - i,
    {
        let ghost post = v@.skip(i as int);
        assert(post.skip(1) =~= v@.skip(i + 1));
        assert(post[0] == v@[i as int]);
        assert(v@.take(i as int) + (seq![v@[i as int]] + start_within(
            post.skip(1),
            (room - cells(v@[i as int])) as nat,
        )) =~= v@.take(i + 1) + start_within(post.skip(1), (room - cells(v@[i as int])) as nat));
        room -= cells_of(v[i]);
        i += 1;
    }
    proof {
        if i < n {
            assert(v@.skip(i as int)[0] == v@[i as int]);
        }
        assert(start_within(v@.skip(i as int), room as nat) =~= Seq::<char>::empty());
        assert(whole =~= v@.take(i as int));
    }
    let head: String = string_of(&v, 0, i);
    assert(head@ =~= whole);
    concat2(head.as_str(), "…")
}

/// A text as one unstyled line.
pub open spec fn plain_line(s: Seq<char>) -> LineV {
    line(seq![span(s, Style::plain())], Style::plain())
}

/// The texts of several lines.
pub open spec fn line_texts(lines: Seq<LineV>) -> Seq<Seq<char>> {
    Seq::new(lines.len(), |i: int| spans_text(lines[i].spans))
}

/// The rows of a text wrapped to `width` cells.
pub open spec fn plain_rows(s: Seq<char>, width: nat) -> Seq<Seq<char>> {
    if s.len() == 0 {
        seq![Seq::empty()]
    } else {
        line_texts(wrapped(plain_line(s), width, 0))
    }
}

pub(crate) fn text_of_spans(spans: &Vec<Span>) -> (r: String)
    ensures
        r@ == spans_text(deep(spans@)),
{
    broadcast use group_deep;

    let ghost all = deep(spans@);
    let mut s: String = String::new();
    let mut i: usize = 0;
    while i < spans.len()
        invariant
            i <= spans@.len(),
            all == deep(spans@),
            s@ == spans_text(all.take(i as int)),
        decreases spans@.len() - i,
    {
        assert(all.take(i + 1).drop_last() =~= all.take(i as int));
        assert(all[i as int] == spans@[i as int].deep_view());
        s.push_str(spans[i].content.as_str());
        i += 1;
    }
    s
}

/// Wrap a text without line breaks to `width` cells: at spaces, and within a
/// word only where it is longer than a row. A row that continues the text does
/// not start with the space it was broken at.
pub fn wrap_plain(s: &str, width: usize) -> (r: Vec<String>)
    ensures
        deep(r@) == plain_rows(s@, width as nat),
{
    broadcast use group_deep;

    let mut out: Vec<String> = Vec::new();
    if s.is_empty() {
        out.push(String::new());
        assert(deep(out@) =~= seq![Seq::<char>::empty()]);
        return out;
    }
    let l: Line = Line::from_text(s.to_owned());
    let rows: Vec<Line> = wrap_line_spans(&l, width, 0);
    let ghost want = line_texts(deep(rows@));
    let mut i: usize = 0;
    while i < rows.len()
        invariant
            i <= rows@.len(),
            want == line_texts(deep(rows@)),
            deep(out@) == want.take(i as int),
        decreases rows@.len() - i,
    {
        assert(deep(rows@)[i as int] == rows@[i as int].deep_view());
        let t: String = text_of_spans(&rows[i].spans);
        assert(t@ == want[i as int]);
        out.push(t);
        assert(want.take(i + 1) =~= want.take(i as int).push(want[i as int]));
        i += 1;
    }
    out
}

proof fn lemma_end_within(s: Seq<char>, room: nat)
    ensures
        end_within(s, room).len() <= s.len(),
        end_within(s, room) == s.skip(s.len() - end_within(s, room).len()),
    decreases s.len(),
{
    if s.len() > 0 && cells(s.last()) <= room {
        lemma_end_within(s.drop_last(), (room - cells(s.last())) as nat);
        let e = end_within(s, room);
        assert(e =~= s.skip(s.len() - e.len()));
    } else {
        assert(end_within(s, room) =~= s.skip(s.len() as int));
    }
}

/// A text that fits is not cut, and a cut one is marked and ends as the text
/// does.
pub proof fn law_cut_head_keeps_the_end(s: Seq<char>, max: nat)
    ensures
        text_cells(s) <= max ==> cut_head(s, max) == s,
        text_cells(s) > max && max > 0 ==> exists|k: int|
            0 <= k <= s.len() && cut_head(s, max) == "…"@ + #[trigger] s.skip(k),
{
    if text_cells(s) > max && max > 0 {
        lemma_end_within(s, (max - 1) as nat);
        let k = s.len() - end_within(s, (max - 1) as nat).len();
        assert(cut_head(s, max) == "…"@ + s.skip(k));
    }
}

} // verus!
