//! A text with a caret, wrapped to the width of its box.

use vstd::prelude::*;

use crate::keymap::{Key, KeyCode};
use crate::text::{chars_of, string_of};
use crate::wrap::{cells, cells_of};

verus! {

/// A text being edited.
pub struct TextArea {
    pub text: Vec<char>,
    /// How many characters stand before the caret.
    pub caret: usize,
}

// ---- rows -------------------------------------------------------------------------

/// Where the line that holds a position ends: at its line break, or with the text.
pub open spec fn line_end(t: Seq<char>, from: int) -> int
    decreases t.len() - from,
{
    if from < 0 || from >= t.len() || t[from] == '\n' {
        from
    } else {
        line_end(t, from + 1)
    }
}

/// How far `room` cells reach.
pub open spec fn reach(t: Seq<char>, from: int, to: int, room: int) -> int
    decreases to - from,
{
    if from >= to || cells(t[from]) > room {
        from
    } else {
        reach(t, from + 1, to, room - cells(t[from]))
    }
}

/// The position behind the last space between two positions; the first of them
/// where there is none.
pub open spec fn behind_space(t: Seq<char>, from: int, to: int) -> int
    decreases to - from,
{
    if from >= to {
        from
    } else if t[to - 1] == ' ' {
        to
    } else {
        behind_space(t, from, to - 1)
    }
}

/// Where the row that starts at `from` ends: with its line if that fits, else
/// behind the last space that fits, else where the room ends. A row holds a
/// character at least.
pub open spec fn row_end(t: Seq<char>, from: int, width: int) -> int {
    let end = line_end(t, from);
    let far = reach(t, from, end, width);
    if far >= end {
        end
    } else if far <= from {
        from + 1
    } else if behind_space(t, from, far) > from {
        behind_space(t, from, far)
    } else {
        far
    }
}

/// The rows from a position on, each from its first character to behind its last.
/// A line break belongs to no row.
pub open spec fn rows_from(t: Seq<char>, from: int, width: int) -> Seq<(int, int)>
    decreases t.len() - from,
    via rows_from_shrink
{
    if from < 0 || from > t.len() {
        Seq::empty()
    } else {
        let end = row_end(t, from, width);
        if end >= t.len() {
            seq![(from, end)]
        } else if t[end] == '\n' {
            seq![(from, end)] + rows_from(t, end + 1, width)
        } else {
            seq![(from, end)] + rows_from(t, end, width)
        }
    }
}

#[via_fn]
proof fn rows_from_shrink(t: Seq<char>, from: int, width: int) {
    if 0 <= from <= t.len() {
        lemma_row_end(t, from, width);
    }
}

pub(crate) proof fn lemma_line_end(t: Seq<char>, from: int)
    requires
        0 <= from <= t.len(),
    ensures
        from <= line_end(t, from) <= t.len(),
        line_end(t, from) < t.len() ==> t[line_end(t, from)] == '\n',
        forall|i: int| from <= i < line_end(t, from) ==> t[i] != '\n',
    decreases t.len() - from,
{
    if from < t.len() && t[from] != '\n' {
        lemma_line_end(t, from + 1);
    }
}

pub(crate) proof fn lemma_reach(t: Seq<char>, from: int, to: int, room: int)
    requires
        0 <= from <= to <= t.len(),
    ensures
        from <= reach(t, from, to, room) <= to,
    decreases to - from,
{
    if from < to && cells(t[from]) <= room {
        lemma_reach(t, from + 1, to, room - cells(t[from]));
    }
}

pub(crate) proof fn lemma_behind_space(t: Seq<char>, from: int, to: int)
    requires
        0 <= from <= to <= t.len(),
    ensures
        from <= behind_space(t, from, to) <= to,
    decreases to - from,
{
    if from < to && t[to - 1] != ' ' {
        lemma_behind_space(t, from, to - 1);
    }
}

/// A row ends within its line, and where its line goes on it has a character.
pub(crate) proof fn lemma_row_end(t: Seq<char>, from: int, width: int)
    requires
        0 <= from <= t.len(),
    ensures
        from <= row_end(t, from, width) <= line_end(t, from) <= t.len(),
        row_end(t, from, width) < line_end(t, from) ==> row_end(t, from, width) > from,
        row_end(t, from, width) < t.len() && t[row_end(t, from, width)] != '\n' ==> row_end(
            t,
            from,
            width,
        ) > from,
{
    let end = line_end(t, from);
    lemma_line_end(t, from);
    lemma_reach(t, from, end, width);
    let far = reach(t, from, end, width);
    lemma_behind_space(t, from, far);
}

fn line_end_of(t: &Vec<char>, from: usize) -> (r: usize)
    requires
        from <= t@.len(),
    ensures
        r == line_end(t@, from as int),
        r <= t@.len(),
{
    let mut i: usize = from;
    while i < t.len() && t[i] != '\n'
        invariant
            from <= i <= t@.len(),
            line_end(t@, from as int) == line_end(t@, i as int),
        decreases t@.len() - i,
    {
        i += 1;
    }
    i
}

fn reach_of(t: &Vec<char>, from: usize, to: usize, room: usize) -> (r: usize)
    requires
        from <= to <= t@.len(),
    ensures
        r == reach(t@, from as int, to as int, room as int),
        from <= r <= to,
{
    let mut i: usize = from;
    let mut left: usize = room;
    while i < to
        invariant
            from <= i <= to <= t@.len(),
            reach(t@, from as int, to as int, room as int) == reach(
                t@,
                i as int,
                to as int,
                left as int,
            ),
        decreases to - i,
    {
        let n: usize = cells_of(t[i]);
        if n > left {
            return i;
        }
        left = left - n;
        i += 1;
    }
    i
}

fn behind_space_of(t: &Vec<char>, from: usize, to: usize) -> (r: usize)
    requires
        from <= to <= t@.len(),
    ensures
        r == behind_space(t@, from as int, to as int),
        from <= r <= to,
{
    let mut i: usize = to;
    while i > from
        invariant
            from <= i <= to <= t@.len(),
            behind_space(t@, from as int, to as int) == behind_space(t@, from as int, i as int),
        decreases i,
    {
        if t[i - 1] == ' ' {
            return i;
        }
        i = i - 1;
    }
    i
}

fn row_end_of(t: &Vec<char>, from: usize, width: usize) -> (r: usize)
    requires
        from <= t@.len(),
    ensures
        r == row_end(t@, from as int, width as int),
{
    let end: usize = line_end_of(t, from);
    proof {
        lemma_line_end(t@, from as int);
    }
    let far: usize = reach_of(t, from, end, width);
    if far >= end {
        end
    } else if far <= from {
        from + 1
    } else {
        let b: usize = behind_space_of(t, from, far);
        if b > from {
            b
        } else {
            far
        }
    }
}

pub open spec fn wide(v: Seq<(usize, usize)>) -> Seq<(int, int)> {
    Seq::new(v.len(), |i: int| (v[i].0 as int, v[i].1 as int))
}

/// Rows in order: each within the text, the next behind it.
pub open spec fn in_order(rows: Seq<(int, int)>, from: int, n: int) -> bool {
    &&& rows.len() > 0
    &&& rows[0].0 == from
    &&& forall|i: int| 0 <= i < rows.len() ==> (#[trigger] rows[i]).0 <= rows[i].1 <= n
    &&& forall|i: int|
        #![trigger rows[i]]
        0 <= i < rows.len() - 1 ==> rows[i].1 <= rows[i + 1].0 && rows[i].0 < rows[i + 1].0
}

pub(crate) proof fn lemma_rows_in_order(t: Seq<char>, from: int, width: int)
    requires
        0 <= from <= t.len(),
    ensures
        in_order(rows_from(t, from, width), from, t.len() as int),
        rows_from(t, from, width).last().1 == t.len(),
    decreases t.len() - from,
{
    lemma_row_end(t, from, width);
    lemma_line_end(t, from);
    let end = row_end(t, from, width);
    let all = rows_from(t, from, width);
    if end < t.len() {
        let next = if t[end] == '\n' {
            end + 1
        } else {
            end
        };
        let rest = rows_from(t, next, width);
        lemma_rows_in_order(t, next, width);
        assert(all =~= seq![(from, end)] + rest);
        assert forall|i: int| 0 <= i < all.len() implies (#[trigger] all[i]).0 <= all[i].1 <= t.len() by {
            if i > 0 {
                assert(all[i] == rest[i - 1]);
            }
        }
        assert forall|i: int|
            #![trigger all[i]]
            0 <= i < all.len() - 1 implies all[i].1 <= all[i + 1].0 && all[i].0 < all[i + 1].0 by {
            assert(all[i + 1] == rest[i]);
            if i > 0 {
                assert(all[i] == rest[i - 1]);
                assert(rest[i - 1].1 <= rest[i - 1 + 1].0);
            }
        }
        assert(all.last() == rest.last());
    }
}

/// The row that the caret stands in: the last one that starts before it.
pub open spec fn row_at(rows: Seq<(int, int)>, caret: int) -> int
    decreases rows.len(),
{
    if rows.len() <= 1 || rows.last().0 <= caret {
        rows.len() - 1
    } else {
        row_at(rows.drop_last(), caret)
    }
}

/// The last place for the caret in a row. Behind the last character, unless the
/// line goes on in the next row: there that place is the next row's first.
pub open spec fn last_place(rows: Seq<(int, int)>, i: int) -> int {
    if i + 1 < rows.len() && rows[i + 1].0 == rows[i].1 {
        rows[i].1 - 1
    } else {
        rows[i].1
    }
}

/// The place of a column in a row.
pub open spec fn place_in(rows: Seq<(int, int)>, i: int, col: int) -> int {
    if rows[i].0 + col <= last_place(rows, i) {
        rows[i].0 + col
    } else {
        last_place(rows, i)
    }
}

pub(crate) proof fn lemma_row_at(rows: Seq<(int, int)>, caret: int)
    requires
        rows.len() > 0,
        rows[0].0 <= caret,
    ensures
        0 <= row_at(rows, caret) < rows.len(),
        rows[row_at(rows, caret)].0 <= caret,
        row_at(rows, caret) + 1 < rows.len() ==> caret < rows[row_at(rows, caret) + 1].0,
    decreases rows.len(),
{
    if rows.len() > 1 && rows.last().0 > caret {
        let init = rows.drop_last();
        lemma_row_at(init, caret);
        assert(init[row_at(init, caret)] == rows[row_at(init, caret)]);
    }
}

fn row_at_of(rows: &Vec<(usize, usize)>, caret: usize) -> (r: usize)
    requires
        rows@.len() > 0,
    ensures
        r == row_at(wide(rows@), caret as int),
        r < rows@.len(),
{
    let ghost all = wide(rows@);
    let mut n: usize = rows.len();
    assert(all.take(n as int) =~= all);
    while n > 1 && rows[n - 1].0 > caret
        invariant
            1 <= n <= rows@.len(),
            all == wide(rows@),
            row_at(all, caret as int) == row_at(all.take(n as int), caret as int),
        decreases n,
    {
        assert(all.take(n as int).last() == all[n - 1]);
        assert(all.take(n as int).drop_last() =~= all.take(n - 1));
        n = n - 1;
    }
    assert(all.take(n as int).last() == all[n - 1]);
    n - 1
}

// ---- the text ---------------------------------------------------------------------

/// Where the word before the caret starts: behind the last blank before its last
/// character.
pub open spec fn word_start(t: Seq<char>, caret: int) -> int {
    non_blanks_from(t, blanks_from(t, caret))
}

/// Where the blanks before a position start.
pub open spec fn blanks_from(t: Seq<char>, to: int) -> int
    decreases to,
{
    if 0 < to <= t.len() && blank_char(t[to - 1]) {
        blanks_from(t, to - 1)
    } else {
        to
    }
}

/// Where the characters before a position that are no blanks start.
pub open spec fn non_blanks_from(t: Seq<char>, to: int) -> int
    decreases to,
{
    if 0 < to <= t.len() && !blank_char(t[to - 1]) {
        non_blanks_from(t, to - 1)
    } else {
        to
    }
}

pub open spec fn blank_char(c: char) -> bool {
    c == ' ' || c == '\n'
}

fn word_start_of(t: &Vec<char>, caret: usize) -> (r: usize)
    requires
        caret <= t@.len(),
    ensures
        r == word_start(t@, caret as int),
        r <= caret,
{
    let mut i: usize = caret;
    while i > 0 && (t[i - 1] == ' ' || t[i - 1] == '\n')
        invariant
            i <= caret <= t@.len(),
            blanks_from(t@, caret as int) == blanks_from(t@, i as int),
        decreases i,
    {
        i = i - 1;
    }
    let ghost b = i;
    while i > 0 && !(t[i - 1] == ' ' || t[i - 1] == '\n')
        invariant
            i <= b <= caret <= t@.len(),
            non_blanks_from(t@, b as int) == non_blanks_from(t@, i as int),
        decreases i,
    {
        i = i - 1;
    }
    i
}

/// A text and its caret.
#[verifier::ext_equal]
pub struct AreaV {
    pub text: Seq<char>,
    pub caret: int,
}

impl AreaV {
    pub open spec fn rows(self, width: int) -> Seq<(int, int)> {
        rows_from(self.text, 0, width)
    }

    /// The row that the caret stands in.
    pub open spec fn row(self, width: int) -> int {
        row_at(self.rows(width), self.caret)
    }

    /// The caret's column in its row.
    pub open spec fn col(self, width: int) -> int {
        self.caret - self.rows(width)[self.row(width)].0
    }

    /// The text with a character at the caret. A text that fills the memory takes
    /// no more.
    pub open spec fn inserted(self, c: char) -> AreaV {
        if self.text.len() < usize::MAX {
            AreaV { text: self.text.insert(self.caret, c), caret: self.caret + 1 }
        } else {
            self
        }
    }

    /// The text without what stands between two positions, the caret there.
    pub open spec fn cut(self, from: int, to: int) -> AreaV {
        AreaV { text: self.text.take(from) + self.text.skip(to), caret: from }
    }

    pub open spec fn at(self, caret: int) -> AreaV {
        AreaV { caret, ..self }
    }

    /// The caret a row up or down, in the same column where the row is long
    /// enough.
    pub open spec fn in_row(self, width: int, i: int) -> AreaV {
        let rows = self.rows(width);
        if 0 <= i < rows.len() {
            self.at(place_in(rows, i, self.caret - rows[self.row(width)].0))
        } else {
            self
        }
    }

    pub open spec fn home(self, width: int) -> AreaV {
        self.at(self.rows(width)[self.row(width)].0)
    }

    pub open spec fn end(self, width: int) -> AreaV {
        self.at(last_place(self.rows(width), self.row(width)))
    }

    /// What a key does to the text, where it is one that edits or moves.
    pub open spec fn edited(self, key: Key, width: int) -> Option<AreaV> {
        let m = key.mods;
        match key.code {
            KeyCode::Enter => if m.shift || m.alt {
                Some(self.inserted('\n'))
            } else {
                None
            },
            KeyCode::Backspace => Some(
                if m.ctrl {
                    self.cut(word_start(self.text, self.caret), self.caret)
                } else if self.caret > 0 {
                    self.cut(self.caret - 1, self.caret)
                } else {
                    self
                },
            ),
            KeyCode::Delete => Some(
                if self.caret < self.text.len() {
                    self.cut(self.caret, self.caret + 1)
                } else {
                    self
                },
            ),
            KeyCode::Left => Some(
                if self.caret > 0 {
                    self.at(self.caret - 1)
                } else {
                    self
                },
            ),
            KeyCode::Right => Some(
                if self.caret < self.text.len() {
                    self.at(self.caret + 1)
                } else {
                    self
                },
            ),
            KeyCode::Up => Some(self.in_row(width, self.row(width) - 1)),
            KeyCode::Down => Some(self.in_row(width, self.row(width) + 1)),
            KeyCode::Home => Some(self.home(width)),
            KeyCode::End => Some(self.end(width)),
            KeyCode::Char(c) => if m.ctrl {
                if c == 'j' {
                    Some(self.inserted('\n'))
                } else if c == 'a' {
                    Some(self.home(width))
                } else if c == 'e' {
                    Some(self.end(width))
                } else if c == 'w' {
                    Some(self.cut(word_start(self.text, self.caret), self.caret))
                } else if c == 'u' {
                    Some(AreaV { text: Seq::empty(), caret: 0 })
                } else {
                    None
                }
            } else if m.alt {
                None
            } else {
                Some(self.inserted(c))
            },
            _ => None,
        }
    }
}

/// The texts of rows.
pub open spec fn row_texts(t: Seq<char>, rows: Seq<(int, int)>) -> Seq<Seq<char>> {
    Seq::new(rows.len(), |i: int| t.subrange(rows[i].0, rows[i].1))
}

impl TextArea {
    pub open spec fn wf(self) -> bool {
        self.caret <= self.text@.len()
    }

    pub open spec fn model(self) -> AreaV {
        AreaV { text: self.text@, caret: self.caret as int }
    }

    /// A text, with the caret behind it.
    pub fn new(text: &str) -> (r: TextArea)
        ensures
            r.wf(),
            r.model() == (AreaV { text: text@, caret: text@.len() as int }),
    {
        let v: Vec<char> = chars_of(text);
        let n: usize = v.len();
        TextArea { text: v, caret: n }
    }

    pub fn text(&self) -> (r: String)
        ensures
            r@ == self.text@,
    {
        let r: String = string_of(self.text.as_slice(), 0, self.text.len());
        assert(r@ =~= self.text@);
        r
    }

    pub fn is_empty(&self) -> (r: bool)
        ensures
            r == (self.text@.len() == 0),
    {
        self.text.len() == 0
    }

    /// The rows of the text, each from its first character to behind its last.
    pub fn layout(&self, width: usize) -> (r: Vec<(usize, usize)>)
        ensures
            wide(r@) == self.model().rows(width as int),
            r@.len() > 0,
            in_order(wide(r@), 0, self.text@.len() as int),
    {
        let ghost t = self.text@;
        let n: usize = self.text.len();
        let mut out: Vec<(usize, usize)> = Vec::new();
        let mut from: usize = 0;
        assert(wide(out@) + rows_from(t, 0, width as int) =~= rows_from(t, 0, width as int));
        loop
            invariant
                t == self.text@,
                n == t.len(),
                from <= n,
                wide(out@) + rows_from(t, from as int, width as int) == rows_from(
                    t,
                    0,
                    width as int,
                ),
            decreases n - from,
        {
            let end: usize = row_end_of(&self.text, from, width);
            proof {
                lemma_row_end(t, from as int, width as int);
                lemma_line_end(t, from as int);
            }
            let ghost before = wide(out@);
            let ghost rest = rows_from(t, from as int, width as int);
            out.push((from, end));
            assert(wide(out@) =~= before.push((from as int, end as int)));
            if end >= n {
                assert(rest =~= seq![(from as int, end as int)]);
                assert(wide(out@) =~= before + rest);
                proof {
                    lemma_rows_in_order(t, 0, width as int);
                }
                return out;
            }
            if self.text[end] == '\n' {
                from = end + 1;
            } else {
                from = end;
            }
            assert(rest =~= seq![(rest[0].0, end as int)] + rows_from(t, from as int, width as int));
            assert(wide(out@) + rows_from(t, from as int, width as int) =~= before + rest);
        }
    }

    /// The row that the caret stands in, and its column there.
    pub(crate) fn caret_place(&self, rows: &Vec<(usize, usize)>, Ghost(width): Ghost<int>) -> (r: (usize, usize))
        requires
            self.wf(),
            wide(rows@) == self.model().rows(width),
        ensures
            r.0 == self.model().row(width),
            r.0 < rows@.len(),
            r.1 == self.model().col(width),
            rows@[r.0 as int].0 + r.1 <= rows@[r.0 as int].1,
    {
        let ghost all = wide(rows@);
        proof {
            lemma_rows_in_order(self.text@, 0, width);
            assert(all.len() == rows@.len());
        }
        let k: usize = row_at_of(rows, self.caret);
        proof {
            assert(all[0] == (rows@[0].0 as int, rows@[0].1 as int));
            lemma_row_at(all, self.caret as int);
            assert(all[k as int] == (rows@[k as int].0 as int, rows@[k as int].1 as int));
            lemma_caret_in_row(self.text@, 0, width, self.caret as int);
        }
        (k, self.caret - rows[k].0)
    }

    fn put(&mut self, c: char)
        requires
            old(self).wf(),
        ensures
            final(self).wf(),
            final(self).model() == old(self).model().inserted(c),
    {
        if self.text.len() < usize::MAX {
            self.text.insert(self.caret, c);
            self.caret = self.caret + 1;
        }
    }

    fn cut(&mut self, from: usize, to: usize)
        requires
            from <= to <= old(self).text@.len(),
        ensures
            final(self).wf(),
            final(self).model() == old(self).model().cut(from as int, to as int),
    {
        let ghost t = self.text@;
        let mut out: Vec<char> = Vec::new();
        let mut i: usize = 0;
        while i < self.text.len()
            invariant
                from <= to <= t.len(),
                t == self.text@,
                i <= t.len(),
                out@ == if i <= from {
                    t.take(i as int)
                } else if i <= to {
                    t.take(from as int)
                } else {
                    t.take(from as int) + t.subrange(to as int, i as int)
                },
            decreases t.len() - i,
        {
            if i < from || i >= to {
                out.push(self.text[i]);
            }
            i += 1;
            assert(out@ =~= if i <= from {
                t.take(i as int)
            } else if i <= to {
                t.take(from as int)
            } else {
                t.take(from as int) + t.subrange(to as int, i as int)
            });
        }
        assert(out@ =~= t.take(from as int) + t.skip(to as int));
        self.text = out;
        self.caret = from;
    }

    fn go_home(&mut self, width: usize)
        requires
            old(self).wf(),
        ensures
            final(self).wf(),
            final(self).model() == old(self).model().home(width as int),
    {
        let rows: Vec<(usize, usize)> = self.layout(width);
        let k: usize = row_at_of(&rows, self.caret);
        proof {
            let all = wide(rows@);
            assert(all[k as int] == (rows@[k as int].0 as int, rows@[k as int].1 as int));
        }
        self.caret = rows[k].0;
    }

    fn go_end(&mut self, width: usize)
        requires
            old(self).wf(),
        ensures
            final(self).wf(),
            final(self).model() == old(self).model().end(width as int),
    {
        let rows: Vec<(usize, usize)> = self.layout(width);
        let k: usize = row_at_of(&rows, self.caret);
        self.caret = last_place_of(&rows, k, Ghost(self.text@.len() as int));
    }

    fn go_row(&mut self, width: usize, up: bool)
        requires
            old(self).wf(),
        ensures
            final(self).wf(),
            final(self).model() == old(self).model().in_row(
                width as int,
                old(self).model().row(width as int) + if up {
                    -1int
                } else {
                    1int
                },
            ),
    {
        let rows: Vec<(usize, usize)> = self.layout(width);
        let k: usize = row_at_of(&rows, self.caret);
        let ghost all = wide(rows@);
        proof {
            assert(all[0] == (rows@[0].0 as int, rows@[0].1 as int));
            lemma_row_at(all, self.caret as int);
            assert(all[k as int] == (rows@[k as int].0 as int, rows@[k as int].1 as int));
        }
        let col: usize = self.caret - rows[k].0;
        if up && k == 0 || !up && k + 1 >= rows.len() {
            return;
        }
        let i: usize = if up {
            k - 1
        } else {
            k + 1
        };
        let last: usize = last_place_of(&rows, i, Ghost(self.text@.len() as int));
        proof {
            assert(all[i as int] == (rows@[i as int].0 as int, rows@[i as int].1 as int));
        }
        self.caret = if last - rows[i].0 >= col {
            rows[i].0 + col
        } else {
            last
        };
    }

    /// Take a key: true if it is one that edits the text or moves the caret.
    pub fn key(&mut self, key: Key, width: usize) -> (r: bool)
        requires
            old(self).wf(),
        ensures
            final(self).wf(),
            match old(self).model().edited(key, width as int) {
                Some(a) => r && final(self).model() == a,
                None => !r && *final(self) == *old(self),
            },
    {
        match key.code {
            KeyCode::Enter => {
                if key.mods.shift || key.mods.alt {
                    self.put('\n');
                } else {
                    return false;
                }
            },
            KeyCode::Backspace => {
                if key.mods.ctrl {
                    let from: usize = word_start_of(&self.text, self.caret);
                    self.cut(from, self.caret);
                } else if self.caret > 0 {
                    self.cut(self.caret - 1, self.caret);
                }
            },
            KeyCode::Delete => {
                if self.caret < self.text.len() {
                    self.cut(self.caret, self.caret + 1);
                }
            },
            KeyCode::Left => {
                if self.caret > 0 {
                    self.caret = self.caret - 1;
                }
            },
            KeyCode::Right => {
                if self.caret < self.text.len() {
                    self.caret = self.caret + 1;
                }
            },
            KeyCode::Up => self.go_row(width, true),
            KeyCode::Down => self.go_row(width, false),
            KeyCode::Home => self.go_home(width),
            KeyCode::End => self.go_end(width),
            KeyCode::Char(c) => {
                if key.mods.ctrl {
                    if c == 'j' {
                        self.put('\n');
                    } else if c == 'a' {
                        self.go_home(width);
                    } else if c == 'e' {
                        self.go_end(width);
                    } else if c == 'w' {
                        let from: usize = word_start_of(&self.text, self.caret);
                        self.cut(from, self.caret);
                    } else if c == 'u' {
                        self.text = Vec::new();
                        self.caret = 0;
                        assert(self.text@ =~= Seq::<char>::empty());
                    } else {
                        return false;
                    }
                } else if key.mods.alt {
                    return false;
                } else {
                    self.put(c);
                }
            },
            _ => {
                return false;
            },
        }
        true
    }
}

fn last_place_of(rows: &Vec<(usize, usize)>, i: usize, Ghost(n): Ghost<int>) -> (r: usize)
    requires
        i < rows@.len(),
        in_order(wide(rows@), 0, n),
    ensures
        r == last_place(wide(rows@), i as int),
        rows@[i as int].0 <= r <= n,
{
    let ghost all = wide(rows@);
    proof {
        assert(all[i as int] == (rows@[i as int].0 as int, rows@[i as int].1 as int));
        if i + 1 < rows@.len() {
            assert(all[i + 1] == (rows@[i + 1].0 as int, rows@[i + 1].1 as int));
        }
    }
    if i < rows.len() - 1 && rows[i + 1].0 == rows[i].1 {
        rows[i].1 - 1
    } else {
        rows[i].1
    }
}

/// The caret is in its row, or behind the row's last character.
pub(crate) proof fn lemma_caret_in_row(t: Seq<char>, from: int, width: int, caret: int)
    requires
        0 <= from <= caret <= t.len(),
    ensures
        caret <= rows_from(t, from, width)[row_at(rows_from(t, from, width), caret)].1,
    decreases t.len() - from,
{
    let rows = rows_from(t, from, width);
    lemma_rows_in_order(t, from, width);
    lemma_row_at(rows, caret);
    lemma_row_end(t, from, width);
    lemma_line_end(t, from);
    let end = row_end(t, from, width);
    let k = row_at(rows, caret);
    if end < t.len() {
        let next = if t[end] == '\n' {
            end + 1
        } else {
            end
        };
        let rest = rows_from(t, next, width);
        assert(rows =~= seq![(from, end)] + rest);
        lemma_rows_in_order(t, next, width);
        if caret >= next {
            lemma_caret_in_row(t, next, width, caret);
            lemma_row_at(rest, caret);
            lemma_row_unique(rows, caret, row_at(rest, caret) + 1);
        } else {
            lemma_row_unique(rows, caret, 0);
        }
    }
}

/// Only one row holds the caret.
pub(crate) proof fn lemma_row_unique(rows: Seq<(int, int)>, caret: int, k: int)
    requires
        0 <= k < rows.len(),
        rows[0].0 <= caret,
        forall|i: int| #![trigger rows[i]] 0 <= i < rows.len() - 1 ==> rows[i].0 < rows[i + 1].0,
        rows[k].0 <= caret,
        k + 1 < rows.len() ==> caret < rows[k + 1].0,
    ensures
        row_at(rows, caret) == k,
    decreases rows.len(),
{
    if rows.len() > 1 {
        if rows.last().0 <= caret {
            if k < rows.len() - 1 {
                lemma_rising(rows, k + 1, rows.len() - 1);
            }
        } else {
            let init = rows.drop_last();
            assert forall|i: int| #![trigger init[i]] 0 <= i < init.len() - 1 implies init[i].0 < init[i
                + 1].0 by {
                assert(rows[i].0 < rows[i + 1].0);
            }
            lemma_row_unique(init, caret, k);
        }
    }
}

pub(crate) proof fn lemma_rising(rows: Seq<(int, int)>, i: int, j: int)
    requires
        0 <= i <= j < rows.len(),
        forall|i: int| #![trigger rows[i]] 0 <= i < rows.len() - 1 ==> rows[i].0 < rows[i + 1].0,
    ensures
        rows[i].0 <= rows[j].0,
    decreases j - i,
{
    if i < j {
        lemma_rising(rows, i, j - 1);
        assert(rows[j - 1].0 < rows[j - 1 + 1].0);
    }
}

// ---- laws ---------------------------------------------------------------------------

/// What was typed is taken away again by backspace.
pub proof fn law_backspace_undoes_typing(a: AreaV, c: char)
    requires
        0 <= a.caret <= a.text.len() < usize::MAX,
    ensures
        ({
            let b = a.inserted(c);
            b.cut(b.caret - 1, b.caret) == a
        }),
{
    let b = a.inserted(c);
    assert(b.cut(b.caret - 1, b.caret).text =~= a.text);
}

/// The cells of the characters between two positions.
pub open spec fn cells_between(t: Seq<char>, a: int, b: int) -> nat
    decreases b - a,
{
    if a >= b {
        0
    } else {
        cells(t[a]) + cells_between(t, a + 1, b)
    }
}

proof fn lemma_cells_grow(t: Seq<char>, a: int, b: int, c: int)
    requires
        a <= b <= c,
    ensures
        cells_between(t, a, b) <= cells_between(t, a, c),
    decreases b - a,
{
    if a < b {
        lemma_cells_grow(t, a + 1, b, c);
    }
}

proof fn lemma_reach_fits(t: Seq<char>, from: int, to: int, room: int)
    requires
        0 <= from <= to <= t.len(),
        room >= 0,
    ensures
        cells_between(t, from, reach(t, from, to, room)) <= room,
    decreases to - from,
{
    if from < to && cells(t[from]) <= room {
        lemma_reach_fits(t, from + 1, to, room - cells(t[from]));
        lemma_reach(t, from + 1, to, room - cells(t[from]));
    }
}

/// A row fits its box, unless it is a single character that is wider.
pub proof fn law_rows_fit(t: Seq<char>, from: int, width: int, k: int)
    requires
        0 <= from <= t.len(),
        width >= 0,
        0 <= k < rows_from(t, from, width).len(),
    ensures
        ({
            let r = rows_from(t, from, width)[k];
            cells_between(t, r.0, r.1) <= width || r.1 == r.0 + 1
        }),
    decreases t.len() - from,
{
    lemma_row_end(t, from, width);
    lemma_line_end(t, from);
    let rows = rows_from(t, from, width);
    let end = row_end(t, from, width);
    if k == 0 {
        let stop = line_end(t, from);
        let far = reach(t, from, stop, width);
        lemma_reach(t, from, stop, width);
        lemma_reach_fits(t, from, stop, width);
        lemma_behind_space(t, from, far);
        if end <= far {
            lemma_cells_grow(t, from, end, far);
        }
        assert(rows[0] == (from, end));
    } else {
        let next = if t[end] == '\n' {
            end + 1
        } else {
            end
        };
        assert(rows =~= seq![(from, end)] + rows_from(t, next, width));
        law_rows_fit(t, next, width, k - 1);
    }
}

/// Every character but the line breaks is in a row, in order.
pub proof fn law_rows_hold_the_text(t: Seq<char>, from: int, width: int, i: int)
    requires
        0 <= from <= i < t.len(),
        t[i] != '\n',
    ensures
        exists|k: int|
            0 <= k < rows_from(t, from, width).len() && (#[trigger] rows_from(t, from, width)[k]).0
                <= i < rows_from(t, from, width)[k].1,
    decreases t.len() - from,
{
    lemma_row_end(t, from, width);
    lemma_line_end(t, from);
    let rows = rows_from(t, from, width);
    let end = row_end(t, from, width);
    if i < end {
        assert(rows[0] == (from, end));
    } else {
        let next = if t[end] == '\n' {
            end + 1
        } else {
            end
        };
        let rest = rows_from(t, next, width);
        assert(rows =~= seq![(from, end)] + rest);
        law_rows_hold_the_text(t, next, width, i);
        let k = choose|k: int| 0 <= k < rest.len() && (#[trigger] rest[k]).0 <= i < rest[k].1;
        assert(rows[k + 1] == rest[k]);
    }
}

} // verus!
