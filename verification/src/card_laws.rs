//! Where the cards of notes hang, and what stands in them.

use vstd::prelude::*;

use crate::card::{
    accented, anchor_place, badge_color, box_row, box_width, caret_spans, hidden_words, indent_span,
    minus, own_turns, range_words, text_rows, thread_rows, turn_rows, CardKind, CARD_INDENT,
};
use crate::config::Theme;
use crate::elide::plain_rows;
use crate::layout::{cut_text, gutters, page, thread_blocks, thread_title, MAX_LINES};
use crate::render::{fold_with_new, lemma_spans_text_add, line_with_new};
use crate::rows::RowV;
use crate::splice::{
    ascending, by_anchor, clamped_cards, insert_card, last_start, lemma_init, lemma_spliced_len,
    lemma_total_nonneg, spliced, starts_of_cards, total_lines, CardV,
};
use crate::style::{accent, span, spans_text, LineV, SpanV, Style};
use crate::text::{decimal, rep, split};
use crate::thread::{Author, Thread, ThreadState, Turn};

verus! {

// ---- places ---------------------------------------------------------------------------

/// Whether a row shows line `no` of the new text.
pub open spec fn shows_line(r: RowV, no: u32) -> bool {
    r matches RowV::Code(l) && l.new_no == Some(no)
}

/// Whether a row hides line `no` of the new text.
pub open spec fn hides_line(r: RowV, no: u32) -> bool {
    r matches RowV::Fold(s) && exists|i: int| 0 <= i < s.len() && (#[trigger] s[i]).new_no == Some(no)
}

proof fn lemma_line_is(rows: Seq<RowV>, no: u32, from: int, k: int)
    requires
        0 <= from <= k <= rows.len(),
        forall|j: int| from <= j < k ==> !shows_line(#[trigger] rows[j], no),
        k < rows.len() ==> shows_line(rows[k], no),
    ensures
        line_with_new(rows, no, from) == k,
    decreases k - from,
{
    if from < k {
        assert(!shows_line(rows[from], no));
        lemma_line_is(rows, no, from + 1, k);
    }
}

proof fn lemma_fold_is(rows: Seq<RowV>, no: u32, from: int, k: int)
    requires
        0 <= from <= k <= rows.len(),
        forall|j: int| from <= j < k ==> !hides_line(#[trigger] rows[j], no),
        k < rows.len() ==> hides_line(rows[k], no),
    ensures
        fold_with_new(rows, no, from) == k,
    decreases k - from,
{
    if from < k {
        assert(!hides_line(rows[from], no));
        lemma_fold_is(rows, no, from + 1, k);
    }
}

/// A note hangs right below the row that shows its last line, or, where that line is
/// folded away, below the fold. One on the whole file hangs at the top; so does one
/// whose line is gone, and that one is said to be lost.
pub proof fn law_a_note_hangs_below_its_last_line(rows: Seq<RowV>, end: u32, k: int)
    requires
        0 <= k <= rows.len(),
    ensures
        anchor_place(rows, 0) == (0int, false),
        end > 0 && k < rows.len() && shows_line(rows[k], end) && (forall|j: int|
            0 <= j < k ==> !shows_line(#[trigger] rows[j], end)) ==> anchor_place(rows, end) == (k + 1, false),
        end > 0 && k < rows.len() && hides_line(rows[k], end) && (forall|j: int|
            0 <= j < k ==> !hides_line(#[trigger] rows[j], end)) && (forall|j: int|
            0 <= j < rows.len() ==> !shows_line(#[trigger] rows[j], end)) ==> anchor_place(rows, end) == (
            k + 1,
            false,
        ),
        end > 0 && (forall|j: int|
            0 <= j < rows.len() ==> !shows_line(#[trigger] rows[j], end) && !hides_line(rows[j], end))
            ==> anchor_place(rows, end) == (0int, true),
{
    if end > 0 {
        if k < rows.len() && shows_line(rows[k], end) && (forall|j: int|
            0 <= j < k ==> !shows_line(#[trigger] rows[j], end)) {
            lemma_line_is(rows, end, 0, k);
        }
        if forall|j: int| 0 <= j < rows.len() ==> !shows_line(#[trigger] rows[j], end) {
            lemma_line_is(rows, end, 0, rows.len() as int);
            if k < rows.len() && hides_line(rows[k], end) && (forall|j: int|
                0 <= j < k ==> !hides_line(#[trigger] rows[j], end)) {
                lemma_fold_is(rows, end, 0, k);
            }
            if forall|j: int| 0 <= j < rows.len() ==> !hides_line(#[trigger] rows[j], end) {
                lemma_fold_is(rows, end, 0, rows.len() as int);
            }
        }
    }
}

/// The cards at one place, in their order.
pub open spec fn cards_at(s: Seq<CardV>, a: int) -> Seq<CardV>
    decreases s.len(),
{
    if s.len() == 0 {
        Seq::empty()
    } else if s.last().anchor == a {
        cards_at(s.drop_last(), a).push(s.last())
    } else {
        cards_at(s.drop_last(), a)
    }
}

proof fn lemma_insert_at_anchor(s: Seq<CardV>, x: CardV, a: int)
    requires
        ascending(s),
    ensures
        cards_at(insert_card(s, x), a) == cards_at(s.push(x), a),
        ascending(insert_card(s, x)),
        forall|y: CardV| #[trigger] insert_card(s, x).contains(y) ==> y == x || s.contains(y),
    decreases s.len(),
{
    reveal_with_fuel(cards_at, 3);
    assert(s.push(x).drop_last() =~= s);
    assert(s.push(x).last() == x);
    let r = insert_card(s, x);
    if s.len() > 0 && x.anchor < s.last().anchor {
        let init = s.drop_last();
        assert(ascending(init)) by {
            assert forall|i: int, j: int| 0 <= i < j < init.len() implies (#[trigger] init[i]).anchor <= (
            #[trigger] init[j]).anchor by {
                assert(s[i] == init[i] && s[j] == init[j]);
            }
        }
        lemma_insert_at_anchor(init, x, a);
        let q = insert_card(init, x);
        assert(r.drop_last() =~= q);
        assert(r.last() == s.last());
        assert(init.push(x).drop_last() =~= init);
        assert(init.push(x).last() == x);
        assert forall|y: CardV| #[trigger] r.contains(y) implies y == x || s.contains(y) by {
            let i = r.index_of(y);
            if i < q.len() {
                assert(q[i] == y);
                assert(q.contains(y));
                if y != x {
                    let j = init.index_of(y);
                    assert(s[j] == y);
                }
            } else {
                assert(s[s.len() - 1] == y);
            }
        }
        assert forall|i: int, j: int| 0 <= i < j < r.len() implies (#[trigger] r[i]).anchor <= (#[trigger] r[j]).anchor by {
            assert(r[i] == q[i]);
            if j < q.len() {
                assert(r[j] == q[j]);
            } else {
                assert(q.contains(q[i]));
                if q[i] != x {
                    let m = init.index_of(q[i]);
                    assert(s[m].anchor <= s[s.len() - 1].anchor);
                }
            }
        }
    } else {
        assert forall|i: int, j: int| 0 <= i < j < r.len() implies (#[trigger] r[i]).anchor <= (#[trigger] r[j]).anchor by {
            assert(r[i] == s[i]);
            if j < s.len() {
                assert(r[j] == s[j]);
            }
            if s.len() > 0 {
                assert(s[i].anchor <= s[s.len() - 1].anchor || i == s.len() - 1);
            }
        }
        assert forall|y: CardV| #[trigger] r.contains(y) implies y == x || s.contains(y) by {
            let i = r.index_of(y);
            if i < s.len() {
                assert(s[i] == y);
            }
        }
    }
}

/// Cards are put in the order of their places, those at one place in the order that
/// they came in. None is lost, and none is added.
pub proof fn law_cards_are_put_in_order(s: Seq<CardV>, a: int)
    ensures
        ascending(by_anchor(s)),
        cards_at(by_anchor(s), a) == cards_at(s, a),
    decreases s.len(),
{
    if s.len() > 0 {
        let init = s.drop_last();
        law_cards_are_put_in_order(init, a);
        lemma_insert_at_anchor(by_anchor(init), s.last(), a);
        assert(by_anchor(init).push(s.last()).drop_last() =~= by_anchor(init));
    }
}

/// Every card of a thread stands where it is listed, whole: at its anchor, behind the
/// cards above it.
pub proof fn law_listed_cards_stand_whole(base: Seq<LineV>, c: Seq<CardV>, k: int, id: u64)
    requires
        ascending(c),
        forall|i: int| 0 <= i < c.len() ==> 0 <= (#[trigger] c[i]).anchor <= base.len(),
        base.len() + total_lines(c) <= usize::MAX,
        0 <= k < c.len(),
        c[k].kind == CardKind::Thread(id),
    ensures
        ({
            let start = c[k].anchor + total_lines(c.take(k));
            &&& 0 <= start
            &&& start + c[k].lines.len() <= spliced(base, c).len()
            &&& spliced(base, c).subrange(start, start + c[k].lines.len()) == c[k].lines
            &&& starts_of_cards(c).contains((id, start as usize, c[k].lines.len() as usize))
        }),
    decreases c.len(),
{
    let init = c.drop_last();
    let start = c[k].anchor + total_lines(c.take(k));
    lemma_spliced_len(base, c);
    lemma_init(base.len() as int, c);
    lemma_total_nonneg(init);
    lemma_total_nonneg(c.take(k));
    let entry = (id, start as usize, c[k].lines.len() as usize);
    let (doc, before) = (spliced(base, c), spliced(base, init));
    lemma_spliced_len(base, init);
    if k == c.len() - 1 {
        assert(c.take(k) =~= init);
        assert(doc.subrange(start, start + c[k].lines.len()) =~= c[k].lines);
        assert(starts_of_cards(c) =~= starts_of_cards(init).push(entry));
        assert(starts_of_cards(c)[starts_of_cards(init).len() as int] == entry);
    } else {
        assert(init[k] == c[k]);
        assert(init.take(k) =~= c.take(k));
        law_listed_cards_stand_whole(base, init, k, id);
        assert(c[k].anchor <= c[c.len() - 1].anchor);
        lemma_total_take(init, k + 1);
        assert(init.take(k + 1).drop_last() =~= init.take(k));
        let at = last_start(c);
        assert(start + c[k].lines.len() <= at);
        assert(doc.subrange(start, start + c[k].lines.len()) =~= before.subrange(
            start,
            start + c[k].lines.len(),
        ));
        let s = starts_of_cards(init);
        let i = s.index_of(entry);
        assert(starts_of_cards(c)[i] == entry);
    }
}

proof fn lemma_total_take(c: Seq<CardV>, k: int)
    requires
        0 <= k <= c.len(),
    ensures
        total_lines(c.take(k)) <= total_lines(c),
    decreases c.len() - k,
{
    if k < c.len() {
        lemma_total_take(c, k + 1);
        assert(c.take(k + 1).drop_last() =~= c.take(k));
    } else {
        assert(c.take(k) =~= c);
    }
}

/// A conversation has its card in the file that it is on, unless it is being
/// rewritten, and no other has one. The cards stand in the order of the
/// conversations.
pub proof fn law_conversations_have_their_cards(
    threads: Seq<Thread>,
    t: Thread,
    file: Seq<char>,
    editing: Option<u64>,
    rows: Seq<RowV>,
    width: int,
    theme: Theme,
    collapsed: Set<u64>,
    asking: Set<u64>,
)
    ensures
        ({
            let all = thread_blocks(threads.push(t), file, editing, rows, width, theme, collapsed, asking);
            let rest = thread_blocks(threads, file, editing, rows, width, theme, collapsed, asking);
            &&& t.anchor.file@ == file && editing != Some(t.id) ==> {
                &&& all.len() == rest.len() + 1
                &&& all.drop_last() == rest
                &&& all.last().kind == CardKind::Thread(t.id)
                &&& all.last().anchor == anchor_place(rows, t.anchor.end).0
            }
            &&& !crate::path::same_file(t.anchor.file@, file) || editing == Some(t.id) ==> all == rest
            &&& thread_blocks(Seq::empty(), file, editing, rows, width, theme, collapsed, asking).len() == 0
        }),
{
    assert(threads.push(t).drop_last() =~= threads);
    let all = thread_blocks(threads.push(t), file, editing, rows, width, theme, collapsed, asking);
    let rest = thread_blocks(threads, file, editing, rows, width, theme, collapsed, asking);
    if crate::path::same_file(t.anchor.file@, file) && editing != Some(t.id) {
        assert(all.drop_last() =~= rest);
    }
}

// ---- what stands in a card ------------------------------------------------------------

proof fn lemma_text_of_three(a: SpanV, b: SpanV, m: Seq<SpanV>, z: SpanV)
    ensures
        spans_text(seq![a, b] + m + seq![z]) == a.content + b.content + spans_text(m) + z.content,
{
    lemma_spans_text_add(seq![a, b] + m, seq![z]);
    lemma_spans_text_add(seq![a, b], m);
    reveal_with_fuel(spans_text, 3);
    assert(seq![a, b].drop_last() =~= seq![a]);
    assert(seq![a].drop_last() =~= Seq::<SpanV>::empty());
    assert(seq![z].drop_last() =~= Seq::<SpanV>::empty());
    assert(spans_text(seq![a, b]) =~= a.content + b.content);
    assert(spans_text(seq![z]) =~= z.content);
}

/// A row of a card holds its text between the card's borders, with nothing but
/// spaces behind it.
pub proof fn law_a_cards_row_holds_its_text(row: Seq<SpanV>, width: int, border: Style, body: Style)
    ensures
        spans_text(box_row(row, width, border, body).spans) == rep(' ', CARD_INDENT as nat) + "│ "@
            + spans_text(row) + rep(
            ' ',
            minus(box_width(width) - 4, crate::wrap::spans_cells(row) as int) as nat,
        ) + " │"@,
{
    let m = crate::card::body_spans(row, body);
    lemma_body_text(row, body);
    let fill = rep(' ', minus(box_width(width) - 4, crate::wrap::spans_cells(row) as int) as nat);
    lemma_text_of_three(
        indent_span(),
        span("│ "@, border),
        m,
        span(fill + " │"@, border),
    );
    assert(rep(' ', CARD_INDENT as nat) + "│ "@ + spans_text(row) + (fill + " │"@) =~= rep(
        ' ',
        CARD_INDENT as nat,
    ) + "│ "@ + spans_text(row) + fill + " │"@);
}

proof fn lemma_body_text(row: Seq<SpanV>, body: Style)
    ensures
        spans_text(crate::card::body_spans(row, body)) == spans_text(row),
    decreases row.len(),
{
    let m = crate::card::body_spans(row, body);
    if row.len() > 0 {
        lemma_body_text(row.drop_last(), body);
        assert(m.drop_last() =~= crate::card::body_spans(row.drop_last(), body));
    }
}

/// The user's own turns are in the card and the agent's are not, in their order.
pub proof fn law_the_card_holds_the_users_turns(turns: Seq<Turn>, t: Turn)
    ensures
        own_turns(Seq::empty()).len() == 0,
        t.author == Author::Human ==> own_turns(turns.push(t)) == own_turns(turns).push(t),
        t.author != Author::Human ==> own_turns(turns.push(t)) == own_turns(turns),
{
    assert(turns.push(t).drop_last() =~= turns);
}

/// Every turn stands in the card with all its lines, and a blank row stands between
/// two turns. Collapsed, a card shows the newest turn alone and says how many it
/// hides.
pub proof fn law_turns_stand_below_each_other(turns: Seq<Turn>, t: Turn, width: nat, earlier: Seq<Turn>)
    requires
        own_turns(earlier).len() > 0,
        t.author == Author::Human,
    ensures
        ({
            let blank = seq![seq![span(Seq::empty(), Style::plain())]];
            let rows = text_rows(split(t.text@, '\n'), width);
            &&& turn_rows(seq![t], false, width) == rows
            &&& turns.len() > 0 ==> turn_rows(turns.push(t), false, width) == turn_rows(turns, false, width)
                + blank + rows
            &&& thread_rows(earlier.push(t), width, false) == thread_rows(earlier, width, false) + blank
                + rows
            &&& thread_rows(earlier.push(t), width, true) == seq![
                seq![span(hidden_words(own_turns(earlier).len()), crate::card::dim_style())],
            ] + blank + rows
        }),
{
    let rows = text_rows(split(t.text@, '\n'), width);
    let blank = seq![seq![span(Seq::<char>::empty(), Style::plain())]];
    assert(seq![t].drop_last() =~= Seq::<Turn>::empty());
    assert(seq![t].last() == t);
    reveal_with_fuel(turn_rows, 2);
    assert(turn_rows(seq![t], false, width) =~= rows);
    assert(turn_rows(seq![t], true, width) =~= blank + rows);
    assert(turns.push(t).drop_last() =~= turns);
    let mine = own_turns(earlier);
    assert(earlier.push(t).drop_last() =~= earlier);
    assert(own_turns(earlier.push(t)) == mine.push(t));
    assert(mine.push(t).drop_last() =~= mine);
    assert(mine.push(t).last() == t);
    let head = seq![seq![span(hidden_words(mine.len()), crate::card::dim_style())]];
    assert(head + (blank + rows) =~= head + blank + rows);
}

/// A text's rows are those of its lines, one line below the other.
pub proof fn law_lines_of_a_note_stand_below_each_other(ls: Seq<Seq<char>>, l: Seq<char>, width: nat, i: int)
    ensures
        ({
            let (all, before, own) = (text_rows(ls.push(l), width), text_rows(ls, width), plain_rows(l, width));
            &&& all.len() == before.len() + own.len()
            &&& all.take(before.len() as int) == before
            &&& 0 <= i < own.len() ==> all[before.len() + i] == seq![span(own[i], Style::plain())]
        }),
{
    assert(ls.push(l).drop_last() =~= ls);
    let (all, before) = (text_rows(ls.push(l), width), text_rows(ls, width));
    assert(all.take(before.len() as int) =~= before);
}

/// The caret stands on its own character, or on a space behind the last one, and
/// every other character of the row stands as it is.
pub proof fn law_the_caret_stands_on_its_character(row: Seq<char>, col: int)
    requires
        0 <= col <= row.len(),
    ensures
        ({
            let s = caret_spans(row, col);
            &&& s.len() == 3
            &&& s[0].content == row.take(col)
            &&& col < row.len() ==> spans_text(s) == row && s[1].content == seq![row[col]]
            &&& col == row.len() ==> spans_text(s) == row.push(' ')
            &&& s[1].style.reversed && !s[0].style.reversed && !s[2].style.reversed
        }),
{
    reveal_strlit(" ");
    let s = caret_spans(row, col);
    reveal_with_fuel(spans_text, 4);
    assert(s.drop_last() =~= seq![s[0], s[1]]);
    assert(seq![s[0], s[1]].drop_last() =~= seq![s[0]]);
    assert(seq![s[0]].drop_last() =~= Seq::<SpanV>::empty());
    if col < row.len() {
        assert(spans_text(s) =~= row);
    } else {
        assert(spans_text(s) =~= row.push(' '));
    }
}

/// A card's title says which lines it is about, what has become of the conversation,
/// and that its line is gone if and only if it is.
pub proof fn law_a_title_tells_how_it_stands(t: Thread, asking: bool, i: int)
    ensures
        ({
            let (found, lost) = (thread_title(t, false, asking), thread_title(t, true, asking));
            &&& lost.len() == found.len() + 1
            &&& lost.drop_last() == found
            &&& lost.last().content == "· anchor lost "@
            &&& found[0].content == " "@ + range_words("note"@, t.anchor.start, t.anchor.end) + " "@
            &&& asking ==> found.last().content == "· asking… "@
            &&& !asking && t.state != ThreadState::Draft ==> found.last().content == "· "@ + t.state.word() + " "@
                && found.last().style.fg == Some(badge_color(t.state))
            &&& t.turns@.len() > 1 ==> found.len() > 1 && found[1].content == "· "@ + decimal(
                t.turns@.len(),
            ) + " turns "@
            &&& t.turns@.len() <= 1 && t.state == ThreadState::Draft && !asking ==> found.len() == 1
        }),
{
    let (found, lost) = (thread_title(t, false, asking), thread_title(t, true, asking));
    assert(lost.drop_last() =~= found);
}

/// A range is told by its numbers: one line by its own, more by the first and the
/// last, and a note on the whole file by these words.
pub proof fn law_a_range_is_told_by_its_numbers(prefix: Seq<char>, start: u32, end: u32)
    ensures
        end == 0 ==> range_words(prefix, start, end) == prefix + " · whole file"@,
        end > 0 && start == end ==> range_words(prefix, start, end) == prefix + " · line "@ + decimal(end as nat),
        end > 0 && start != end ==> range_words(prefix, start, end) == prefix + " · lines "@ + decimal(
            start as nat,
        ) + "-"@ + decimal(end as nat),
{
}

/// Failure is red and an answer green, and no two of the states that a card shows
/// look the same.
pub proof fn law_badges_have_their_colours(a: ThreadState, b: ThreadState)
    ensures
        badge_color(ThreadState::Failed) == crate::style::bad(),
        badge_color(ThreadState::Answered) == crate::style::ok(),
        badge_color(a) == badge_color(b) ==> a == b,
{
}

// ---- the page -------------------------------------------------------------------------

/// The number of a commented line is accented, in whatever span it stands; no
/// character of any line is changed by it, and no other line.
pub proof fn law_only_the_number_is_accented(lines: Seq<LineV>, i: int, rows: Seq<RowV>, k: int)
    requires
        0 <= k < lines.len(),
    ensures
        accented(lines, i, rows).len() == lines.len(),
        k != i ==> accented(lines, i, rows)[k] == lines[k],
        accented(lines, i, rows)[k].spans.len() == lines[k].spans.len(),
        forall|j: int|
            0 <= j < lines[k].spans.len() ==> (#[trigger] accented(lines, i, rows)[k].spans[j]).content
                == lines[k].spans[j].content,
        forall|j: int|
            0 <= j < lines[k].spans.len() && j >= 2 ==> (#[trigger] accented(lines, i, rows)[k].spans[j])
                == lines[k].spans[j],
        k == i && i < rows.len() && (rows[i] matches RowV::Code(l) && l.old_no is Some && l.new_no is Some)
            && lines[i].spans.len() > 0 ==> accented(lines, i, rows)[i].spans[0].style.fg == Some(accent()),
        k == i && i < rows.len() && (rows[i] matches RowV::Code(l) && (l.old_no is None || l.new_no is None))
            && lines[i].spans.len() > 1 ==> accented(lines, i, rows)[i].spans[1].style.fg == Some(accent())
            && accented(lines, i, rows)[i].spans[0] == lines[i].spans[0],
{
}

/// A text that is too long is cut at its end, and the line below it says how many
/// lines are missing; any other text is shown whole.
pub proof fn law_a_long_text_is_cut_at_its_end(text: Seq<LineV>, rows: Seq<RowV>)
    ensures
        text.len() <= MAX_LINES ==> page(text, Seq::empty(), rows).doc == text,
        text.len() > MAX_LINES ==> {
            let doc = page(text, Seq::empty(), rows).doc;
            &&& doc.len() == MAX_LINES + 1
            &&& doc.take(MAX_LINES as int) == text.take(MAX_LINES as int)
            &&& doc.last().spans.len() == 1
            &&& doc.last().spans[0].content == "… diff truncated ("@ + decimal(
                (text.len() - MAX_LINES) as nat,
            ) + " more lines)"@
        },
{
    let none = Seq::<CardV>::empty();
    let base = gutters(cut_text(text), none, rows);
    assert(clamped_cards(none, base.len() as int) =~= none);
    let doc = page(text, none, rows).doc;
    if text.len() > MAX_LINES {
        assert(doc.take(MAX_LINES as int) =~= text.take(MAX_LINES as int));
    }
}

/// The number of a commented line is accented in the pane, whatever cards come after
/// it; no text is changed.
pub proof fn law_commented_lines_are_accented(lines: Seq<LineV>, cards: Seq<CardV>, c: CardV, rows: Seq<RowV>)
    ensures
        c.anchor > 0 ==> gutters(lines, cards.push(c), rows) == accented(
            gutters(lines, cards, rows),
            c.anchor - 1,
            rows,
        ),
        c.anchor == 0 ==> gutters(lines, cards.push(c), rows) == gutters(lines, cards, rows),
        gutters(lines, Seq::empty(), rows) == lines,
{
    assert(cards.push(c).drop_last() =~= cards);
}

/// The card that has the focus has a border of its own colour.
pub proof fn law_the_focus_is_seen(theme: Theme)
    ensures
        crate::card::border_style(theme, true).fg == Some(accent()),
        crate::card::border_style(theme, false).fg != Some(accent()),
{
}

/// The box for a note says what it is for: a new note, an edit or a reply.
pub proof fn law_the_box_says_what_it_is_for(id: u64, turn: usize)
    ensures
        crate::layout::target_words(Some(crate::layout::Target::New)) == "new note"@,
        crate::layout::target_words(Some(crate::layout::Target::Edit { id, turn })) == "edit note"@,
        crate::layout::target_words(Some(crate::layout::Target::Reply(id))) == "reply"@,
{
}

/// The draft is shown row by row, with the caret in its own row alone.
pub proof fn law_a_draft_is_shown_row_by_row(rows: Seq<Seq<char>>, at: int, col: int, i: int)
    requires
        0 <= i < rows.len(),
    ensures
        crate::card::draft_rows(rows, at, col).len() == rows.len(),
        i == at ==> crate::card::draft_rows(rows, at, col)[i] == caret_spans(rows[i], col),
        i != at ==> crate::card::draft_rows(rows, at, col)[i] == seq![span(rows[i], Style::plain())],
{
}

/// What is left of some room: what is not taken, and nothing where all is.
pub proof fn law_what_is_left_is_filled(room: int, taken: int)
    ensures
        taken <= room ==> minus(room, taken) + taken == room,
        taken > room ==> minus(room, taken) == 0,
{
}

} // verus!
