//! How the note that is being written breaks into rows, and what its keys do.

use vstd::prelude::*;

use crate::keymap::{Key, KeyCode, KeyModifiers};
use crate::textarea::{
    behind_space, blank_char, blanks_from, cells_between, in_order, last_place, lemma_line_end,
    lemma_rising, lemma_row_at, lemma_row_end, lemma_row_unique, lemma_rows_in_order, line_end,
    non_blanks_from, place_in, reach, row_at, row_end, rows_from, word_start, AreaV,
};
use crate::wrap::cells;

verus! {

proof fn lemma_reach_is(t: Seq<char>, from: int, to: int, room: int)
    requires
        0 <= from <= to <= t.len(),
        room >= 0,
    ensures
        ({
            let far = reach(t, from, to, room);
            &&& from <= far <= to
            &&& cells_between(t, from, far) <= room
            &&& far < to ==> cells_between(t, from, far + 1) > room
        }),
    decreases to - from,
{
    reveal_with_fuel(cells_between, 2);
    if from < to && cells(t[from]) <= room {
        lemma_reach_is(t, from + 1, to, room - cells(t[from]));
    }
}

proof fn lemma_space_is(t: Seq<char>, from: int, to: int)
    requires
        0 <= from <= to <= t.len(),
    ensures
        ({
            let k = behind_space(t, from, to);
            &&& from <= k <= to
            &&& from < k ==> t[k - 1] == ' '
            &&& forall|i: int| k <= i < to ==> #[trigger] t[i] != ' '
        }),
    decreases to - from,
{
    if from < to && t[to - 1] != ' ' {
        lemma_space_is(t, from, to - 1);
    }
}

/// A row that is not the last of its line ends because the character at `far`, which
/// is returned, has no room: the row ends right behind the last space before that
/// character, or right before it where there is no space. No line break stands in a
/// row.
pub proof fn law_rows_break_behind_spaces(t: Seq<char>, from: int, width: int) -> (far: int)
    requires
        0 <= from <= t.len(),
        width >= 0,
    ensures
        ({
            let end = row_end(t, from, width);
            &&& from <= end <= t.len()
            &&& forall|i: int| from <= i < end ==> #[trigger] t[i] != '\n'
            &&& end < t.len() && t[end] != '\n' ==> {
                &&& from <= far < t.len()
                &&& cells_between(t, from, far) <= width < cells_between(t, from, far + 1)
                &&& forall|i: int| from <= i <= far ==> #[trigger] t[i] != '\n'
                &&& {
                    ||| from < end <= far && t[end - 1] == ' ' && forall|i: int|
                        end <= i < far ==> #[trigger] t[i] != ' '
                    ||| from < end == far && forall|i: int| from <= i < far ==> #[trigger] t[i] != ' '
                    ||| far == from && end == from + 1
                }
            }
        }),
{
    let end = line_end(t, from);
    lemma_line_end(t, from);
    lemma_row_end(t, from, width);
    let far = reach(t, from, end, width);
    lemma_reach_is(t, from, end, width);
    lemma_space_is(t, from, far);
    far
}

/// Rows follow each other with nothing but a line break between them.
pub proof fn law_rows_follow_each_other(t: Seq<char>, from: int, width: int, k: int)
    requires
        0 <= from <= t.len(),
        0 <= k < rows_from(t, from, width).len(),
    ensures
        ({
            let rows = rows_from(t, from, width);
            &&& rows[0].0 == from
            &&& rows[k].1 == row_end(t, rows[k].0, width)
            &&& k + 1 < rows.len() ==> rows[k].1 < t.len() && rows[k + 1].0 == if t[rows[k].1] == '\n' {
                rows[k].1 + 1
            } else {
                rows[k].1
            }
            &&& k + 1 == rows.len() ==> rows[k].1 == t.len()
        }),
    decreases t.len() - from,
{
    lemma_rows_in_order(t, from, width);
    lemma_row_end(t, from, width);
    let end = row_end(t, from, width);
    let rows = rows_from(t, from, width);
    if end < t.len() {
        let next = if t[end] == '\n' {
            end + 1
        } else {
            end
        };
        lemma_rows_in_order(t, next, width);
        let rest = rows_from(t, next, width);
        assert(rows =~= seq![(from, end)] + rest);
        if k > 0 {
            law_rows_follow_each_other(t, next, width, k - 1);
            assert(rows[k] == rest[k - 1]);
            if k + 1 < rows.len() {
                assert(rows[k + 1] == rest[k]);
            }
        } else {
            assert(rows[1] == rest[0]);
        }
    }
}

/// The word before the caret: from where it starts to `end`, which is returned,
/// stand no blanks, and from there to the caret nothing else. Before the word
/// stands a blank, or nothing.
pub proof fn law_a_word_is_taken_whole(t: Seq<char>, caret: int) -> (end: int)
    requires
        0 <= caret <= t.len(),
    ensures
        0 <= word_start(t, caret) <= end <= caret,
        forall|i: int| word_start(t, caret) <= i < end ==> #[trigger] t[i] != ' ' && t[i] != '\n',
        forall|i: int| end <= i < caret ==> #[trigger] t[i] == ' ' || t[i] == '\n',
        word_start(t, caret) > 0 ==> t[word_start(t, caret) - 1] == ' ' || t[word_start(t, caret) - 1]
            == '\n',
        end > 0 ==> t[end - 1] != ' ' && t[end - 1] != '\n',
{
    lemma_blanks(t, caret);
    lemma_non_blanks(t, blanks_from(t, caret));
    blanks_from(t, caret)
}

proof fn lemma_blanks(t: Seq<char>, to: int)
    requires
        0 <= to <= t.len(),
    ensures
        0 <= blanks_from(t, to) <= to,
        forall|i: int| blanks_from(t, to) <= i < to ==> #[trigger] t[i] == ' ' || t[i] == '\n',
        blanks_from(t, to) > 0 ==> t[blanks_from(t, to) - 1] != ' ' && t[blanks_from(t, to) - 1] != '\n',
    decreases to,
{
    if 0 < to && blank_char(t[to - 1]) {
        lemma_blanks(t, to - 1);
    }
}

proof fn lemma_non_blanks(t: Seq<char>, to: int)
    requires
        0 <= to <= t.len(),
    ensures
        0 <= non_blanks_from(t, to) <= to,
        forall|i: int| non_blanks_from(t, to) <= i < to ==> #[trigger] t[i] != ' ' && t[i] != '\n',
        non_blanks_from(t, to) > 0 ==> t[non_blanks_from(t, to) - 1] == ' ' || t[non_blanks_from(t, to) - 1]
            == '\n',
    decreases to,
{
    if 0 < to && !blank_char(t[to - 1]) {
        lemma_non_blanks(t, to - 1);
    }
}

/// A key without modifiers.
pub open spec fn bare_key(code: KeyCode) -> Key {
    Key { code, mods: KeyModifiers { ctrl: false, alt: false, shift: false, other: false } }
}

/// A key with Control held.
pub open spec fn ctrl_key(code: KeyCode) -> Key {
    Key { code, mods: KeyModifiers { ctrl: true, alt: false, shift: false, other: false } }
}

/// Typing puts the character where the caret is, and the caret behind it; backspace
/// takes the character before the caret, delete the one behind it; with Control,
/// backspace and `w` take the word before it; `u` takes all. Enter breaks the line
/// only with Shift or Alt, and so does Control with `j`.
pub proof fn law_keys_edit_at_the_caret(a: AreaV, c: char, width: int, shift: bool)
    requires
        0 <= a.caret <= a.text.len() < usize::MAX,
    ensures
        ({
            let (before, behind) = (a.text.take(a.caret), a.text.skip(a.caret));
            let typed = KeyModifiers { ctrl: false, alt: false, shift, other: false };
            &&& a.edited(Key { code: KeyCode::Char(c), mods: typed }, width) == Some(
                AreaV { text: before.push(c) + behind, caret: a.caret + 1 },
            )
            &&& before.len() > 0 ==> a.edited(bare_key(KeyCode::Backspace), width) == Some(
                AreaV { text: before.drop_last() + behind, caret: a.caret - 1 },
            )
            &&& before.len() == 0 ==> a.edited(bare_key(KeyCode::Backspace), width) == Some(a)
            &&& behind.len() > 0 ==> a.edited(bare_key(KeyCode::Delete), width) == Some(
                AreaV { text: before + behind.skip(1), caret: a.caret },
            )
            &&& behind.len() == 0 ==> a.edited(bare_key(KeyCode::Delete), width) == Some(a)
            &&& a.edited(ctrl_key(KeyCode::Char('w')), width) == Some(
                AreaV {
                    text: before.take(word_start(a.text, a.caret)) + behind,
                    caret: word_start(a.text, a.caret),
                },
            )
            &&& a.edited(ctrl_key(KeyCode::Backspace), width) == a.edited(
                ctrl_key(KeyCode::Char('w')),
                width,
            )
            &&& a.edited(ctrl_key(KeyCode::Char('u')), width) == Some(
                AreaV { text: Seq::empty(), caret: 0 },
            )
            &&& a.edited(bare_key(KeyCode::Enter), width) is None
            &&& a.edited(ctrl_key(KeyCode::Char('j')), width) == Some(
                AreaV { text: before.push('\n') + behind, caret: a.caret + 1 },
            )
            &&& a.edited(
                Key {
                    code: KeyCode::Enter,
                    mods: KeyModifiers { ctrl: false, alt: false, shift: true, other: false },
                },
                width,
            ) == a.edited(ctrl_key(KeyCode::Char('j')), width)
            &&& a.edited(
                Key {
                    code: KeyCode::Enter,
                    mods: KeyModifiers { ctrl: false, alt: true, shift: false, other: false },
                },
                width,
            ) == a.edited(ctrl_key(KeyCode::Char('j')), width)
        }),
{
    let (before, behind) = (a.text.take(a.caret), a.text.skip(a.caret));
    assert(a.text.insert(a.caret, c) =~= before.push(c) + behind);
    assert(a.text.insert(a.caret, '\n') =~= before.push('\n') + behind);
    if before.len() > 0 {
        assert(a.text.take(a.caret - 1) =~= before.drop_last());
    }
    if behind.len() > 0 {
        assert(a.text.skip(a.caret + 1) =~= behind.skip(1));
    }
    let end = law_a_word_is_taken_whole(a.text, a.caret);
    assert(before.take(word_start(a.text, a.caret)) =~= a.text.take(word_start(a.text, a.caret)));
}

/// Left and right move by one character and undo each other; at the ends of the text
/// they stay.
pub proof fn law_left_and_right_undo_each_other(a: AreaV, width: int)
    requires
        0 <= a.caret <= a.text.len(),
    ensures
        a.caret > 0 ==> a.edited(bare_key(KeyCode::Left), width) == Some(a.at(a.caret - 1)) && a.at(
            a.caret - 1,
        ).edited(bare_key(KeyCode::Right), width) == Some(a),
        a.caret < a.text.len() ==> a.edited(bare_key(KeyCode::Right), width) == Some(
            a.at(a.caret + 1),
        ) && a.at(a.caret + 1).edited(bare_key(KeyCode::Left), width) == Some(a),
        a.caret == 0 ==> a.edited(bare_key(KeyCode::Left), width) == Some(a),
        a.caret == a.text.len() ==> a.edited(bare_key(KeyCode::Right), width) == Some(a),
{
}

proof fn lemma_place_in(rows: Seq<(int, int)>, n: int, i: int, col: int)
    requires
        in_order(rows, 0, n),
        0 <= i < rows.len(),
        col >= 0,
    ensures
        ({
            let p = place_in(rows, i, col);
            &&& row_at(rows, p) == i
            &&& rows[i].0 <= p <= rows[i].1 <= n
            &&& p == rows[i].0 + col || (p < rows[i].0 + col && p == last_place(rows, i))
        }),
{
    let p = place_in(rows, i, col);
    let (a, b) = rows[i];
    assert(a <= b <= n);
    let next = rows[i + 1].0;
    assert(i + 1 < rows.len() ==> b <= next && a < next);
    assert(a <= p <= b);
    lemma_rising(rows, 0, i);
    lemma_row_unique(rows, p, i);
}

/// The place that a column has in a row is in that row: in that column, or the
/// row's last where it has no such column.
proof fn lemma_place(t: Seq<char>, width: int, i: int, col: int)
    requires
        0 <= i < rows_from(t, 0, width).len(),
        col >= 0,
    ensures
        ({
            let rows = rows_from(t, 0, width);
            let p = place_in(rows, i, col);
            &&& row_at(rows, p) == i
            &&& rows[i].0 <= p <= rows[i].1 <= t.len()
            &&& p == rows[i].0 + col || (p < rows[i].0 + col && p == last_place(rows, i))
        }),
{
    let rows = rows_from(t, 0, width);
    lemma_rows_in_order(t, 0, width);
    lemma_place_in(rows, t.len() as int, i, col);
}

/// Up and down move the caret one row and keep its column, or take the row's last
/// place where the row is shorter; in the first and the last row they do nothing.
/// The text stays as it is.
pub proof fn law_up_and_down_keep_the_column(a: AreaV, width: int, down: bool)
    requires
        0 <= a.caret <= a.text.len(),
    ensures
        ({
            let rows = rows_from(a.text, 0, width);
            let from = row_at(rows, a.caret);
            let col = a.caret - rows[from].0;
            let to = if down {
                from + 1
            } else {
                from - 1
            };
            let key = bare_key(
                if down {
                    KeyCode::Down
                } else {
                    KeyCode::Up
                },
            );
            &&& !(0 <= to < rows.len()) ==> a.edited(key, width) == Some(a)
            &&& 0 <= to < rows.len() ==> {
                let b = a.edited(key, width)->0;
                &&& a.edited(key, width) is Some
                &&& b.text == a.text
                &&& row_at(rows, b.caret) == to
                &&& b.caret - rows[to].0 == col || (b.caret - rows[to].0 < col && b.caret == last_place(
                    rows,
                    to,
                ))
            }
        }),
{
    let rows = rows_from(a.text, 0, width);
    lemma_rows_in_order(a.text, 0, width);
    lemma_row_at(rows, a.caret);
    let from = row_at(rows, a.caret);
    let to = if down {
        from + 1
    } else {
        from - 1
    };
    if 0 <= to < rows.len() {
        lemma_place(a.text, width, to, a.caret - rows[from].0);
    }
}

/// Home and End go to the first and the last place of the caret's own row, and
/// Control with `a` and `e` do the same.
pub proof fn law_home_and_end_stay_in_the_row(a: AreaV, width: int)
    requires
        0 <= a.caret <= a.text.len(),
    ensures
        ({
            let rows = rows_from(a.text, 0, width);
            let r = row_at(rows, a.caret);
            let (h, e) = (a.edited(bare_key(KeyCode::Home), width), a.edited(bare_key(KeyCode::End), width));
            &&& h is Some && e is Some
            &&& (h->0).text == a.text && (e->0).text == a.text
            &&& (h->0).caret == rows[r].0
            &&& (e->0).caret == last_place(rows, r)
            &&& row_at(rows, (h->0).caret) == r && row_at(rows, (e->0).caret) == r
            &&& r + 1 == rows.len() ==> (e->0).caret == a.text.len()
            &&& r + 1 < rows.len() && a.text[rows[r].1] == '\n' ==> (e->0).caret == rows[r].1
            &&& h == a.edited(ctrl_key(KeyCode::Char('a')), width)
            &&& e == a.edited(ctrl_key(KeyCode::Char('e')), width)
        }),
{
    let rows = rows_from(a.text, 0, width);
    lemma_rows_in_order(a.text, 0, width);
    lemma_row_at(rows, a.caret);
    let r = row_at(rows, a.caret);
    law_rows_follow_each_other(a.text, 0, width, r);
    lemma_place(a.text, width, r, 0);
    lemma_place(a.text, width, r, a.text.len() as int);
    let p = place_in(rows, r, 0);
    assert(p == rows[r].0) by {
        if r + 1 < rows.len() {
            assert(rows[r].0 < rows[r + 1].0);
        }
    }
    let q = place_in(rows, r, a.text.len() as int);
    assert(q == last_place(rows, r));
}

} // verus!
