//! Where the cursor goes, and what the pane shows.

use vstd::prelude::*;

use crate::config::Theme;
use crate::docview::{
    card_above, card_at, card_below, cursor_color, select_color, thread_meant, tinted, within,
    ViewV,
};
use crate::style::{Color, LineV};

verus! {

proof fn lemma_below_is(v: ViewV, i: int, k: int)
    requires
        0 <= i <= k < v.doc.len(),
        !v.is_card(k),
        forall|j: int| i <= j < k ==> v.is_card(j),
    ensures
        v.free_below(i) == Some(k),
    decreases k - i,
{
    if i < k {
        lemma_below_is(v, i + 1, k);
    }
}

proof fn lemma_none_below(v: ViewV, i: int)
    requires
        0 <= i,
        forall|j: int| i <= j < v.doc.len() ==> v.is_card(j),
        v.doc.len() > 0,
    ensures
        v.free_below(i) is None,
    decreases v.doc.len() - i,
{
    if i < v.doc.len() {
        lemma_none_below(v, i + 1);
    }
}

proof fn lemma_above_is(v: ViewV, i: int, k: int)
    requires
        0 <= k <= i,
        !v.is_card(k),
        forall|j: int| k < j <= i ==> v.is_card(j),
    ensures
        v.free_above(i) == Some(k),
    decreases i - k,
{
    if k < i {
        lemma_above_is(v, i - 1, k);
    }
}

proof fn lemma_none_above(v: ViewV, i: int)
    requires
        forall|j: int| 0 <= j <= i ==> v.is_card(j),
    ensures
        v.free_above(i) is None,
    decreases i + 1,
{
    if i >= 0 {
        lemma_none_above(v, i - 1);
    }
}

/// From a card the cursor goes on in the direction that it came in, to the nearest
/// line that is no card's, and turns round only where there is none.
pub proof fn law_the_cursor_steps_over_cards(v: ViewV, line: int, k: int)
    requires
        0 <= line < v.doc.len(),
        0 <= k < v.doc.len(),
        !v.is_card(k),
    ensures
        !v.is_card(line) ==> v.off_cards(line, true) == line && v.off_cards(line, false) == line,
        line <= k && (forall|j: int| line <= j < k ==> v.is_card(j)) ==> v.off_cards(line, false) == k,
        k <= line && (forall|j: int| k < j <= line ==> v.is_card(j)) ==> v.off_cards(line, true) == k,
        k <= line && (forall|j: int| k < j < v.doc.len() ==> v.is_card(j)) ==> v.off_cards(line, false) == k
            || !v.is_card(line),
        line <= k && (forall|j: int| 0 <= j < k ==> v.is_card(j)) ==> v.off_cards(line, true) == k
            || !v.is_card(line),
{
    if v.is_card(line) {
        if line <= k && (forall|j: int| line <= j < k ==> v.is_card(j)) {
            lemma_below_is(v, line, k);
        }
        if k <= line && (forall|j: int| k < j <= line ==> v.is_card(j)) {
            lemma_above_is(v, line, k);
        }
        if k <= line && (forall|j: int| k < j < v.doc.len() ==> v.is_card(j)) {
            lemma_none_below(v, line);
            lemma_above_is(v, line, k);
        }
        if line <= k && (forall|j: int| 0 <= j < k ==> v.is_card(j)) {
            lemma_none_above(v, line);
            lemma_below_is(v, line, k);
        }
    }
}

/// The cursor moves by so many lines, held to the document; the furthest moves go to
/// its first and its last line.
pub proof fn law_the_cursor_moves_by_lines(v: ViewV, delta: i32)
    requires
        v.doc.len() > 0,
        forall|j: int| 0 <= j < v.doc.len() ==> !v.is_card(j),
        delta != i32::MIN && delta != i32::MAX,
        0 <= v.cursor < v.doc.len(),
    ensures
        0 <= v.cursor + delta < v.doc.len() ==> v.cursor_to(delta) == v.cursor + delta,
        v.cursor + delta < 0 ==> v.cursor_to(delta) == 0,
        v.cursor + delta >= v.doc.len() ==> v.cursor_to(delta) == v.doc.len() - 1,
        v.cursor_to(i32::MIN) == 0,
        v.cursor_to(i32::MAX) == v.doc.len() - 1,
{
    let last = v.doc.len() - 1;
    assert(!v.is_card(0) && !v.is_card(last));
    assert(!v.is_card(within(v.cursor + delta, 0, last)));
}

/// A row is brought into view by scrolling no further than needed: not at all where
/// it is in view, else until it is the first or the last row.
pub proof fn law_a_row_comes_into_view(v: ViewV, row: int)
    requires
        0 <= row <= 65535,
        0 <= v.scroll,
        1 <= v.height,
    ensures
        v.scroll_for(row) <= row < v.scroll_for(row) + v.height,
        v.scroll <= row < v.scroll + v.height ==> v.scroll_for(row) == v.scroll,
        row < v.scroll ==> v.scroll_for(row) == row,
        row >= v.scroll + v.height ==> v.scroll_for(row) + v.height == row + 1,
{
}

/// A move takes the cursor to its new line, and the view along to that line's row.
pub proof fn law_a_move_takes_the_view_along(v: ViewV, delta: i32, theme: Theme)
    requires
        v.doc.len() <= usize::MAX,
        v.saved.len() == 0,
    ensures
        ({
            let w = v.moved(delta, false, theme);
            &&& w.cursor == v.cursor_to(delta)
            &&& w.scroll == v.scroll_for(v.row_of(w.cursor))
            &&& w.doc == v.doc && w.rows == v.rows && w.select == v.select
        }),
{
    reveal(ViewV::moved);
    reveal(ViewV::restyled);
}

/// Scrolling moves the view by so many rows, held to the document; one that hits
/// neither end is undone by scrolling back.
pub proof fn law_scrolling_back_undoes_it(v: ViewV, w: ViewV, delta: i32, active: bool, theme: Theme)
    requires
        -0x4000_0000 < delta < 0x4000_0000,
        0 <= v.scroll + delta <= v.scroll_end(),
        0 <= v.scroll <= v.scroll_end(),
        w == (ViewV { scroll: v.scroll + delta, ..v }),
    ensures
        v.scrolled(delta, active, theme).scroll == v.scroll + delta,
        w.scrolled((-delta) as i32, active, theme).scroll == v.scroll,
        v.scrolled(i32::MIN, active, theme).scroll == 0,
        v.scrolled(i32::MAX, active, theme).scroll == v.scroll_end(),
{
    reveal(ViewV::scrolled);
    reveal(ViewV::followed);
    reveal(ViewV::restyled);
}

/// The end of the document is its last page: its last row is the last in view, and
/// one that fits the pane is not scrolled.
pub proof fn law_the_end_is_the_last_page(v: ViewV)
    requires
        0 <= v.height,
        v.rows.len() <= 65535,
    ensures
        v.rows.len() >= v.height ==> v.scroll_end() + v.height == v.rows.len(),
        v.rows.len() < v.height ==> v.scroll_end() == 0,
{
}

/// A page is what the pane shows, and half a page the half of that, and a row at
/// least.
pub proof fn law_a_page_is_the_pane(v: ViewV)
    requires
        v.height >= 2,
    ensures
        v.page_rows(true) == v.height,
        v.page_rows(false) <= v.page_rows(true) - v.page_rows(false) <= v.page_rows(false) + 1,
{
}

/// Without a selection, the cursor comes along with the rows in view, and stays
/// where its row is in view already.
pub proof fn law_the_cursor_comes_along(v: ViewV)
    requires
        0 <= v.scroll,
        1 <= v.height,
    ensures
        v.select is Some ==> v.visible_cursor() == v.cursor,
        v.visible_cursor() != v.cursor ==> ({
            let (first, last) = v.rows_of(v.visible_cursor());
            first < v.scroll + v.height && last >= v.scroll
        }),
        0 <= v.cursor < v.doc.len() && !v.is_card(v.cursor) && v.scroll <= v.row_of(v.cursor) < v.scroll
            + v.height && v.row_of(v.cursor) < v.rows.len() && v.line_at(v.row_of(v.cursor)) == v.cursor
            ==> v.visible_cursor() == v.cursor,
{
}

/// The box that a note is written in comes into view whole where it fits; where it
/// does not, its first row does.
pub proof fn law_the_box_comes_into_view(v: ViewV, start: usize, len: usize)
    requires
        v.composer_span == Some((start, len)),
        1 <= v.height,
        0 <= v.scroll,
        v.rows.len() <= 65535,
        0 <= v.row_of(start as int) <= v.row_of(v.block_end(start as int, len as int)) < v.rows.len(),
    ensures
        ({
            let top = v.at_composer().scroll;
            let (first, last) = (v.row_of(start as int), v.row_of(v.block_end(start as int, len as int)));
            &&& top <= first < top + v.height
            &&& last - first < v.height ==> last < top + v.height
            &&& v.scroll <= first && last < v.scroll + v.height && v.scroll <= v.scroll_end() ==> top
                == v.scroll
        }),
{
    reveal(ViewV::at_composer);
}

proof fn lemma_card_of(v: ViewV, id: u64, from: int, k: int)
    requires
        0 <= from <= k < v.card_starts.len(),
        v.card_starts[k].0 == id,
        forall|j: int| from <= j < k ==> (#[trigger] v.card_starts[j]).0 != id,
    ensures
        v.card_of(id, from) == Some((v.card_starts[k].1 as int, v.card_starts[k].2 as int)),
    decreases k - from,
{
    if from < k {
        lemma_card_of(v, id, from + 1, k);
    }
}

/// A note that is gone to comes into view whole where it fits, with up to three rows
/// above it.
pub proof fn law_a_note_comes_into_view(v: ViewV, id: u64, k: int, theme: Theme)
    requires
        0 <= k < v.card_starts.len(),
        v.card_starts[k].0 == id,
        forall|j: int| 0 <= j < k ==> (#[trigger] v.card_starts[j]).0 != id,
        1 <= v.height,
        v.rows.len() <= 65535,
        ({
            let (start, len) = (v.card_starts[k].1 as int, v.card_starts[k].2 as int);
            0 <= v.row_of(start) <= v.row_of(v.block_end(start, len)) < v.rows.len()
        }),
    ensures
        ({
            let (start, len) = (v.card_starts[k].1 as int, v.card_starts[k].2 as int);
            let (first, last) = (v.row_of(start), v.row_of(v.block_end(start, len)));
            let top = v.at_note(id, false, theme).scroll;
            &&& last - first < v.height ==> top <= first && last < top + v.height
            &&& last - first + 3 < v.height && first >= 3 ==> top <= first - 3
        }),
{
    lemma_card_of(v, id, 0, k);
    reveal(ViewV::at_note);
    reveal(ViewV::followed);
    reveal(ViewV::restyled);
}

// ---- selection ------------------------------------------------------------------------

/// The selection runs from where it was begun to the cursor, whichever comes first;
/// without one, it is the cursor's line.
pub proof fn law_the_selection_reaches_the_cursor(v: ViewV, a: usize)
    ensures
        v.select is None ==> v.selected() == (v.cursor, v.cursor),
        v.select == Some(a) ==> v.selected().0 <= v.selected().1,
        v.select == Some(a) ==> (v.selected() == (a as int, v.cursor) || v.selected() == (
            v.cursor,
            a as int,
        )),
{
}

/// In the pane that has the focus the cursor's line has its own background, or the
/// selected lines have theirs, except those of cards; every other line is as it was.
pub proof fn law_the_cursor_line_is_tinted(v: ViewV, theme: Theme, i: int)
    requires
        v.saved.len() == 0,
        0 <= i < v.doc.len() <= usize::MAX,
        0 <= v.cursor < v.doc.len(),
        v.select matches Some(a) ==> a < v.doc.len(),
    ensures
        ({
            let w = v.restyled(true, theme);
            let (lo, hi) = v.selected();
            &&& w.doc.len() == v.doc.len()
            &&& v.select is None ==> w.doc[i] == if i == v.cursor {
                tinted(v.doc[i], cursor_color(theme))
            } else {
                v.doc[i]
            }
            &&& v.select is Some ==> w.doc[i] == if lo <= i <= hi && !v.is_card(i) {
                tinted(v.doc[i], select_color(theme))
            } else {
                v.doc[i]
            }
            &&& w.cursor == v.cursor && w.select == v.select && w.scroll == v.scroll
        }),
        v.restyled(false, theme).doc == v.doc,
        cursor_color(theme) != select_color(theme),
{
    reveal(ViewV::restyled);
}

/// A tint changes backgrounds only: every span keeps its text and the rest of its
/// style.
pub proof fn law_a_tint_is_a_background(l: LineV, bg: Color, i: int)
    requires
        0 <= i < l.spans.len(),
    ensures
        tinted(l, bg).spans.len() == l.spans.len(),
        tinted(l, bg).spans[i].content == l.spans[i].content,
        tinted(l, bg).spans[i].style.bg == Some(bg),
        tinted(l, bg).spans[i].style.fg == l.spans[i].style.fg,
        tinted(l, bg).style.bg == Some(bg),
{
}

// ---- cards ----------------------------------------------------------------------------

/// Whether a card covers a line.
pub open spec fn card_covers(c: (u64, usize, usize), line: int) -> bool {
    c.1 <= line < c.1 + c.2
}

proof fn lemma_above(s: Seq<(u64, usize, usize)>, line: int, at: bool)
    ensures
        card_above(s, line, at) matches Some(c) ==> s.contains(c) && (c.1 < line || (at && c.1 == line)),
        forall|i: int|
            0 <= i < s.len() && ((#[trigger] s[i]).1 < line || (at && s[i].1 == line)) ==> card_above(
                s,
                line,
                at,
            ) is Some && s[i].1 <= (card_above(s, line, at)->0).1,
    decreases s.len(),
{
    if s.len() > 0 {
        let init = s.drop_last();
        lemma_above(init, line, at);
        assert forall|i: int|
            0 <= i < s.len() && ((#[trigger] s[i]).1 < line || (at && s[i].1 == line)) implies card_above(
            s,
            line,
            at,
        ) is Some && s[i].1 <= (card_above(s, line, at)->0).1 by {
            if i < init.len() {
                assert(init[i] == s[i]);
            }
        }
        match card_above(s, line, at) {
            Some(c) => {
                if c == s.last() {
                    assert(s[s.len() - 1] == c);
                } else {
                    let i = init.index_of(c);
                    assert(s[i] == c);
                }
            },
            None => {},
        }
    }
}

proof fn lemma_below(s: Seq<(u64, usize, usize)>, line: int)
    ensures
        card_below(s, line) matches Some(c) ==> s.contains(c) && c.1 >= line,
        forall|i: int|
            0 <= i < s.len() && (#[trigger] s[i]).1 >= line ==> card_below(s, line) is Some && s[i].1 >= (
            card_below(s, line)->0).1,
    decreases s.len(),
{
    if s.len() > 0 {
        let init = s.drop_last();
        lemma_below(init, line);
        assert forall|i: int| 0 <= i < s.len() && (#[trigger] s[i]).1 >= line implies card_below(s, line) is Some
            && s[i].1 >= (card_below(s, line)->0).1 by {
            if i < init.len() {
                assert(init[i] == s[i]);
            }
        }
        match card_below(s, line) {
            Some(c) => {
                if c == s.last() {
                    assert(s[s.len() - 1] == c);
                } else {
                    let i = init.index_of(c);
                    assert(s[i] == c);
                }
            },
            None => {},
        }
    }
}

/// Among cards that do not overlap, the one at a line is the one that covers it; the
/// thread meant there is that one, else the nearest that starts below, else the
/// nearest that starts above. Where there is any card, one is meant.
pub proof fn law_the_nearest_thread_is_meant(s: Seq<(u64, usize, usize)>, line: int, k: int)
    requires
        0 <= k < s.len(),
        forall|i: int, j: int|
            0 <= i < s.len() && 0 <= j < s.len() && i != j ==> (#[trigger] s[i]).1 + s[i].2 <= (
            #[trigger] s[j]).1 || s[j].1 + s[j].2 <= s[i].1,
        forall|i: int| 0 <= i < s.len() ==> (#[trigger] s[i]).2 > 0,
    ensures
        card_covers(s[k], line) ==> card_at(s, line) == Some(s[k].0) && thread_meant(s, line) == Some(
            s[k].0,
        ),
        (forall|i: int| 0 <= i < s.len() ==> !card_covers(#[trigger] s[i], line)) ==> card_at(s, line) is None,
        (forall|i: int| 0 <= i < s.len() ==> !card_covers(#[trigger] s[i], line)) && s[k].1 >= line && (
        forall|i: int| 0 <= i < s.len() && (#[trigger] s[i]).1 >= line ==> s[k].1 <= s[i].1)
            ==> thread_meant(s, line) == Some(s[k].0),
        (forall|i: int| 0 <= i < s.len() ==> (#[trigger] s[i]).1 + s[i].2 <= line && s[i].1 <= s[k].1)
            ==> thread_meant(s, line) == Some(s[k].0),
        thread_meant(s, line) is Some,
{
    lemma_above(s, line, true);
    lemma_above(s, line, false);
    lemma_below(s, line);
    if card_covers(s[k], line) {
        let c = card_above(s, line, true)->0;
        let i = s.index_of(c);
        assert(s[i] == c);
        assert(i == k);
    }
    if card_at(s, line) is Some {
        let c = card_above(s, line, true)->0;
        let i = s.index_of(c);
        assert(card_covers(s[i], line));
    }
    if card_below(s, line) is Some {
        let c = card_below(s, line)->0;
        let i = s.index_of(c);
        assert(s[i] == c);
    }
    if card_above(s, line, false) is Some {
        let c = card_above(s, line, false)->0;
        let i = s.index_of(c);
        assert(s[i] == c);
    }
    if s[k].1 >= line {
        assert(card_below(s, line) is Some);
    }
}

/// The rows of a line go up to the one before the next line's first; those of the last
/// line to the last row.
pub proof fn law_a_line_ends_where_the_next_begins(v: ViewV, line: int)
    requires
        0 <= line < v.line_to_row.len(),
        v.rows.len() > 0,
        v.line_to_row[line] < v.rows.len(),
        line + 1 < v.line_to_row.len() ==> v.line_to_row[line] < v.line_to_row[line + 1],
    ensures
        v.rows_of(line).0 == v.line_to_row[line],
        line + 1 < v.line_to_row.len() ==> v.rows_of(line).1 + 1 == v.line_to_row[line + 1],
        line + 1 == v.line_to_row.len() ==> v.rows_of(line).1 + 1 == v.rows.len(),
        v.rows_of(line).0 <= v.rows_of(line).1,
{
}

/// A row shows the line that it is listed under.
pub proof fn law_a_row_shows_its_line(v: ViewV, row: int)
    requires
        v.doc.len() > 0,
    ensures
        0 <= row < v.row_to_line.len() ==> v.line_at(row) == v.row_to_line[row],
        row >= v.row_to_line.len() ==> v.line_at(row) == v.doc.len() - 1,
{
}

} // verus!
