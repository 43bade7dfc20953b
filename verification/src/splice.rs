//! Cards put into a document, and the way back from a line of the document to
//! the line it came from.

use vstd::prelude::*;

use crate::card::{Card, CardKind};
use crate::style::{Line, LineV};
use crate::text::{deep, group_deep};

verus! {

#[verifier::ext_equal]
pub struct CardV {
    pub anchor: int,
    pub lines: Seq<LineV>,
    pub kind: CardKind,
}

impl DeepView for Card {
    type V = CardV;

    open spec fn deep_view(&self) -> CardV {
        CardV { anchor: self.anchor as int, lines: deep(self.lines@), kind: self.kind }
    }
}

// ---- order -----------------------------------------------------------------------

/// A card behind all cards that are not anchored below it.
pub open spec fn insert_card(s: Seq<CardV>, x: CardV) -> Seq<CardV>
    decreases s.len(),
{
    if s.len() > 0 && x.anchor < s.last().anchor {
        insert_card(s.drop_last(), x).push(s.last())
    } else {
        s.push(x)
    }
}

/// Cards from top to bottom; those at one place stay as they came.
pub open spec fn by_anchor(s: Seq<CardV>) -> Seq<CardV>
    decreases s.len(),
{
    if s.len() == 0 {
        Seq::empty()
    } else {
        insert_card(by_anchor(s.drop_last()), s.last())
    }
}

/// Cards anchored no further down than `cap`.
pub open spec fn clamped_cards(s: Seq<CardV>, cap: int) -> Seq<CardV> {
    Seq::new(
        s.len(),
        |i: int| CardV { anchor: if s[i].anchor < cap { s[i].anchor } else { cap }, ..s[i] },
    )
}

pub open spec fn ascending(s: Seq<CardV>) -> bool {
    forall|i: int, j: int| 0 <= i < j < s.len() ==> (#[trigger] s[i]).anchor <= (#[trigger] s[j]).anchor
}

proof fn lemma_insert_card_at(s: Seq<CardV>, x: CardV, j: int)
    requires
        0 <= j <= s.len(),
        forall|k: int| j <= k < s.len() ==> x.anchor < (#[trigger] s[k]).anchor,
        j > 0 ==> s[j - 1].anchor <= x.anchor,
    ensures
        insert_card(s, x) == s.insert(j, x),
    decreases s.len(),
{
    if s.len() > 0 && x.anchor < s.last().anchor {
        let init = s.drop_last();
        assert forall|k: int| j <= k < init.len() implies x.anchor < (#[trigger] init[k]).anchor by {
            assert(init[k] == s[k]);
        }
        lemma_insert_card_at(init, x, j);
        assert(init.insert(j, x).push(s.last()) =~= s.insert(j, x));
    } else {
        if j < s.len() {
            assert(x.anchor < s[s.len() - 1].anchor);
        }
        assert(s.insert(j, x) =~= s.push(x));
    }
}

proof fn lemma_insert_card_ascending(s: Seq<CardV>, x: CardV, cap: int)
    requires
        ascending(s),
        forall|i: int| 0 <= i < s.len() ==> 0 <= (#[trigger] s[i]).anchor <= cap,
        0 <= x.anchor <= cap,
    ensures
        ascending(insert_card(s, x)),
        insert_card(s, x).len() == s.len() + 1,
        forall|i: int|
            0 <= i < insert_card(s, x).len() ==> 0 <= (#[trigger] insert_card(s, x)[i]).anchor <= cap,
        forall|i: int|
            0 <= i < insert_card(s, x).len() && s.len() > 0 && x.anchor < s.last().anchor ==> (
            #[trigger] insert_card(s, x)[i]).anchor <= s.last().anchor,
    decreases s.len(),
{
    let r = insert_card(s, x);
    if s.len() > 0 && x.anchor < s.last().anchor {
        let init = s.drop_last();
        assert forall|i: int, j: int| 0 <= i < j < init.len() implies (#[trigger] init[i]).anchor <= (
        #[trigger] init[j]).anchor by {
            assert(s[i].anchor <= s[j].anchor);
        }
        assert forall|i: int| 0 <= i < init.len() implies 0 <= (#[trigger] init[i]).anchor <= cap by {
            assert(init[i] == s[i]);
        }
        lemma_insert_card_ascending(init, x, cap);
        let p = insert_card(init, x);
        let last = s[s.len() - 1];
        assert forall|i: int| 0 <= i < p.len() implies (#[trigger] p[i]).anchor <= last.anchor by {
            if init.len() > 0 && x.anchor < init.last().anchor {
                assert(p[i].anchor <= init.last().anchor);
                assert(s[s.len() - 2].anchor <= last.anchor);
            } else {
                assert(p == init.push(x));
                if i < init.len() {
                    assert(s[i].anchor <= s[s.len() - 1].anchor);
                }
            }
        }
        assert forall|i: int, j: int| 0 <= i < j < r.len() implies (#[trigger] r[i]).anchor <= (
        #[trigger] r[j]).anchor by {
            if j < p.len() {
                assert(p[i].anchor <= p[j].anchor);
            } else {
                assert(r[i] == p[i]);
            }
        }
        assert forall|i: int| 0 <= i < r.len() implies 0 <= (#[trigger] r[i]).anchor <= cap by {
            if i < p.len() {
                assert(r[i] == p[i]);
            } else {
                assert(last.anchor <= cap);
            }
        }
    } else {
        assert forall|i: int, j: int| 0 <= i < j < r.len() implies (#[trigger] r[i]).anchor <= (
        #[trigger] r[j]).anchor by {
            if j < s.len() {
                assert(s[i].anchor <= s[j].anchor);
            } else if i < s.len() - 1 {
                assert(s[i].anchor <= s[s.len() - 1].anchor);
            }
        }
        assert forall|i: int| 0 <= i < r.len() implies 0 <= (#[trigger] r[i]).anchor <= cap by {
            if i < s.len() {
                assert(r[i] == s[i]);
            }
        }
    }
}

/// Sorting cards orders them by anchor and keeps their anchors in range.
pub proof fn lemma_by_anchor(s: Seq<CardV>, cap: int)
    requires
        forall|i: int| 0 <= i < s.len() ==> 0 <= (#[trigger] s[i]).anchor <= cap,
    ensures
        ascending(by_anchor(s)),
        by_anchor(s).len() == s.len(),
        forall|i: int|
            0 <= i < by_anchor(s).len() ==> 0 <= (#[trigger] by_anchor(s)[i]).anchor <= cap,
    decreases s.len(),
{
    if s.len() > 0 {
        let init = s.drop_last();
        assert forall|i: int| 0 <= i < init.len() implies 0 <= (#[trigger] init[i]).anchor <= cap by {
            assert(init[i] == s[i]);
        }
        lemma_by_anchor(init, cap);
        assert(0 <= s[s.len() - 1].anchor <= cap);
        lemma_insert_card_ascending(by_anchor(init), s.last(), cap);
    }
}

fn sort_cards(cards: &mut Vec<Card>)
    ensures
        deep(final(cards)@) == by_anchor(deep(old(cards)@)),
{
    broadcast use group_deep;

    let ghost all = deep(cards@);
    let n: usize = cards.len();
    let mut i: usize = 0;
    assert(deep(cards@) =~= by_anchor(all.take(0)) + all);
    while i < n
        invariant
            i <= n == cards@.len(),
            n == all.len(),
            by_anchor(all.take(i as int)).len() == i,
            deep(cards@) == by_anchor(all.take(i as int)) + all.skip(i as int),
        decreases n - i,
    {
        let ghost done = by_anchor(all.take(i as int));
        let ghost cur = cards@;
        let ghost d = deep(cur);
        assert(all.take(i + 1).drop_last() =~= all.take(i as int));
        assert(d[i as int] == all[i as int]);
        assert(cur[i as int].deep_view() == d[i as int]);
        let ghost x = all[i as int];
        let mut j: usize = i;
        while j > 0 && cards[i].anchor < cards[j - 1].anchor
            invariant
                j <= i < n == cards@.len(),
                cur == cards@,
                d == deep(cur),
                done.len() == i,
                d == done + all.skip(i as int),
                x == cur[i as int].deep_view(),
                forall|k: int| j <= k < i ==> x.anchor < (#[trigger] done[k]).anchor,
            decreases j,
        {
            assert(d[j - 1] == cur[j - 1].deep_view());
            assert(d[j - 1] == done[j - 1]);
            j -= 1;
        }
        proof {
            if j > 0 {
                assert(d[j - 1] == cur[j - 1].deep_view());
                assert(d[j - 1] == done[j - 1]);
            }
            lemma_insert_card_at(done, x, j as int);
        }
        let c: Card = cards.remove(i);
        cards.insert(j, c);
        proof {
            assert(cards@ =~= cur.remove(i as int).insert(j as int, cur[i as int]));
            assert(deep(cards@) =~= d.remove(i as int).insert(j as int, d[i as int]));
            assert(d.remove(i as int) =~= done + all.skip(i + 1));
            assert((done + all.skip(i + 1)).insert(j as int, x) =~= done.insert(j as int, x) + all.skip(
                i + 1,
            ));
        }
        i += 1;
    }
    assert(by_anchor(all) + all.skip(n as int) =~= by_anchor(all));
}

// ---- splicing -------------------------------------------------------------------------

/// The lines that cards take.
pub open spec fn total_lines(c: Seq<CardV>) -> int
    decreases c.len(),
{
    if c.len() == 0 {
        0
    } else {
        total_lines(c.drop_last()) + c.last().lines.len()
    }
}

/// Where the last of the cards starts: its anchor, behind the cards above it.
pub open spec fn last_start(c: Seq<CardV>) -> int {
    c.last().anchor + total_lines(c.drop_last())
}

/// The document with the cards in it.
pub open spec fn spliced(base: Seq<LineV>, c: Seq<CardV>) -> Seq<LineV>
    decreases c.len(),
{
    if c.len() == 0 {
        base
    } else {
        let init = spliced(base, c.drop_last());
        init.take(last_start(c)) + c.last().lines + init.skip(last_start(c))
    }
}

/// The lines of the document that belong to cards, ascending.
pub open spec fn lines_of_cards(c: Seq<CardV>) -> Seq<usize>
    decreases c.len(),
{
    if c.len() == 0 {
        Seq::empty()
    } else {
        lines_of_cards(c.drop_last()) + Seq::new(
            c.last().lines.len(),
            |i: int| (last_start(c) + i) as usize,
        )
    }
}

/// For each thread's card: the thread, where the card starts, and its height.
pub open spec fn starts_of_cards(c: Seq<CardV>) -> Seq<(u64, usize, usize)>
    decreases c.len(),
{
    if c.len() == 0 {
        Seq::empty()
    } else {
        match c.last().kind {
            CardKind::Thread(id) => starts_of_cards(c.drop_last()).push(
                (id, last_start(c) as usize, c.last().lines.len() as usize),
            ),
            CardKind::Composer => starts_of_cards(c.drop_last()),
        }
    }
}

/// Where the box that is being written in starts, and its height.
pub open spec fn span_of_composer(c: Seq<CardV>) -> Option<(usize, usize)>
    decreases c.len(),
{
    if c.len() == 0 {
        None
    } else {
        match c.last().kind {
            CardKind::Composer => Some((last_start(c) as usize, c.last().lines.len() as usize)),
            CardKind::Thread(_) => span_of_composer(c.drop_last()),
        }
    }
}

/// A document with cards in it.
pub struct Spliced {
    pub doc: Vec<Line>,
    pub card_lines: Vec<usize>,
    pub card_starts: Vec<(u64, usize, usize)>,
    pub composer_span: Option<(usize, usize)>,
}

/// The document grows by the lines of the cards.
pub proof fn lemma_spliced_len(base: Seq<LineV>, c: Seq<CardV>)
    requires
        ascending(c),
        forall|i: int| 0 <= i < c.len() ==> 0 <= (#[trigger] c[i]).anchor <= base.len(),
    ensures
        spliced(base, c).len() == base.len() + total_lines(c),
        total_lines(c) >= 0,
        c.len() > 0 ==> 0 <= last_start(c) <= spliced(base, c.drop_last()).len(),
    decreases c.len(),
{
    if c.len() > 0 {
        lemma_init(base.len() as int, c);
        lemma_spliced_len(base, c.drop_last());
        assert(0 <= c[c.len() - 1].anchor <= base.len());
    }
}

pub(crate) proof fn lemma_init(cap: int, c: Seq<CardV>)
    requires
        c.len() > 0,
        ascending(c),
        forall|i: int| 0 <= i < c.len() ==> 0 <= (#[trigger] c[i]).anchor <= cap,
    ensures
        ascending(c.drop_last()),
        forall|i: int|
            0 <= i < c.drop_last().len() ==> 0 <= (#[trigger] c.drop_last()[i]).anchor <= cap,
{
    let init = c.drop_last();
    assert forall|i: int, j: int| 0 <= i < j < init.len() implies (#[trigger] init[i]).anchor <= (
    #[trigger] init[j]).anchor by {
        assert(c[i].anchor <= c[j].anchor);
    }
    assert forall|i: int| 0 <= i < init.len() implies 0 <= (#[trigger] init[i]).anchor <= cap by {
        assert(init[i] == c[i]);
    }
}

/// Strictly ascending positions.
pub open spec fn rising(s: Seq<usize>) -> bool {
    forall|i: int, j: int| 0 <= i < j < s.len() ==> s[i] < s[j]
}

proof fn lemma_card_lines(base: Seq<LineV>, c: Seq<CardV>)
    requires
        ascending(c),
        forall|i: int| 0 <= i < c.len() ==> 0 <= (#[trigger] c[i]).anchor <= base.len(),
        base.len() + total_lines(c) <= usize::MAX,
    ensures
        rising(lines_of_cards(c)),
        lines_of_cards(c).len() == total_lines(c),
        forall|i: int|
            0 <= i < lines_of_cards(c).len() ==> (#[trigger] lines_of_cards(c)[i]) < c.last().anchor
                + total_lines(c),
    decreases c.len(),
{
    lemma_spliced_len(base, c);
    if c.len() > 0 {
        let init = c.drop_last();
        lemma_init(base.len() as int, c);
        lemma_spliced_len(base, init);
        lemma_card_lines(base, init);
        let a = lines_of_cards(init);
        let s = last_start(c);
        let r = lines_of_cards(c);
        assert(0 <= c[c.len() - 1].anchor <= base.len());
        if init.len() > 0 {
            assert(c[c.len() - 2].anchor <= c[c.len() - 1].anchor);
        }
        assert forall|i: int| 0 <= i < a.len() implies (#[trigger] a[i]) < s by {
            assert(init.len() > 0);
        }
        assert forall|i: int, j: int| 0 <= i < j < r.len() implies r[i] < r[j] by {
            if j < a.len() {
                assert(a[i] < a[j]);
            } else if i < a.len() {
                assert(a[i] < s);
            }
        }
        assert forall|i: int| 0 <= i < r.len() implies (#[trigger] r[i]) < c.last().anchor + total_lines(
            c,
        ) by {
            if i < a.len() {
                assert(a[i] < s);
            }
        }
    }
}

/// Put cards into a document.
pub fn splice_cards(base: Vec<Line>, cards: Vec<Card>) -> (r: Spliced)
    ensures
        ({
            let c = by_anchor(clamped_cards(deep(cards@), base@.len() as int));
            &&& deep(r.doc@) == spliced(deep(base@), c)
            &&& r.card_lines@ == lines_of_cards(c)
            &&& r.card_starts@ == starts_of_cards(c)
            &&& r.composer_span == span_of_composer(c)
            &&& base@.len() + total_lines(c) == r.doc@.len()
        }),
{
    broadcast use group_deep;

    let mut cards: Vec<Card> = cards;
    let ghost given = deep(cards@);
    let cap: usize = base.len();
    let n: usize = cards.len();
    let mut i: usize = 0;
    while i < n
        invariant
            i <= n == cards@.len() == given.len(),
            forall|k: int|
                0 <= k < i ==> #[trigger] cards@[k].deep_view() == clamped_cards(given, cap as int)[k],
            forall|k: int| i <= k < n ==> #[trigger] cards@[k].deep_view() == given[k],
        decreases n - i,
    {
        assert(cards@[i as int].deep_view() == given[i as int]);
        if cards[i].anchor >= cap {
            cards[i].anchor = cap;
        }
        i += 1;
    }
    let ghost within = clamped_cards(given, cap as int);
    assert(deep(cards@) =~= within);
    sort_cards(&mut cards);
    let ghost c = by_anchor(within);
    let ghost b = deep(base@);
    proof {
        lemma_clamped_within(given, cap as int);
        lemma_by_anchor(within, cap as int);
    }
    let mut doc: Vec<Line> = base;
    let mut card_lines: Vec<usize> = Vec::new();
    let mut card_starts: Vec<(u64, usize, usize)> = Vec::new();
    let mut composer_span: Option<(usize, usize)> = None;
    let mut k: usize = 0;
    while k < n
        invariant
            k <= n == cards@.len(),
            c == deep(cards@),
            cap == b.len(),
            ascending(c),
            forall|i: int| 0 <= i < c.len() ==> 0 <= (#[trigger] c[i]).anchor <= cap,
            doc@.len() == cap + total_lines(c.take(k as int)),
            deep(doc@) == spliced(b, c.take(k as int)),
            card_lines@ == lines_of_cards(c.take(k as int)),
            card_starts@ == starts_of_cards(c.take(k as int)),
            composer_span == span_of_composer(c.take(k as int)),
        decreases n - k,
    {
        let ghost cur = c.take(k + 1);
        proof {
            assert(cur.drop_last() =~= c.take(k as int));
            assert(cur.last() == c[k as int]);
            assert(c[k as int] == cards@[k as int].deep_view());
            lemma_take_ascending(c, cap as int, k + 1);
            lemma_spliced_len(b, cur);
            lemma_take_ascending(c, cap as int, k as int);
            lemma_spliced_len(b, c.take(k as int));
        }
        let shift: usize = doc.len() - cap;
        let start: usize = cards[k].anchor + shift;
        let mut lines: Vec<Line> = copy_lines(&cards[k].lines);
        let height: usize = lines.len();
        let ghost before = deep(doc@);
        let ghost lv = deep(lines@);
        assert(doc@.len() == before.len());
        let mut tail: Vec<Line> = doc.split_off(start);
        proof {
            assert(deep(doc@) =~= before.take(start as int));
            assert(deep(tail@) =~= before.skip(start as int));
        }
        doc.append(&mut lines);
        doc.append(&mut tail);
        assert(deep(doc@) =~= before.take(start as int) + lv + before.skip(start as int));
        let whole: usize = doc.len();
        assert(start + height <= whole);
        match cards[k].kind {
            CardKind::Thread(id) => {
                card_starts.push((id, start, height));
            },
            CardKind::Composer => {
                composer_span = Some((start, height));
            },
        }
        let ghost lines0 = card_lines@;
        let mut j: usize = 0;
        while j < height
            invariant
                j <= height,
                start + height <= usize::MAX,
                card_lines@ == lines0 + Seq::new(j as nat, |i: int| (start + i) as usize),
            decreases height - j,
        {
            card_lines.push(start + j);
            assert(card_lines@ =~= lines0 + Seq::new((j + 1) as nat, |i: int| (start + i) as usize));
            j += 1;
        }
        assert(card_lines@ =~= lines_of_cards(cur));
        k += 1;
    }
    assert(c.take(n as int) =~= c);
    Spliced { doc, card_lines, card_starts, composer_span }
}

/// Clamped cards are anchored within the document.
pub proof fn lemma_clamped_within(s: Seq<CardV>, cap: int)
    requires
        cap >= 0,
        forall|i: int| 0 <= i < s.len() ==> 0 <= (#[trigger] s[i]).anchor,
    ensures
        forall|i: int|
            0 <= i < clamped_cards(s, cap).len() ==> 0 <= (#[trigger] clamped_cards(s, cap)[i]).anchor
                <= cap,
{
    let w = clamped_cards(s, cap);
    assert forall|i: int| 0 <= i < w.len() implies 0 <= (#[trigger] w[i]).anchor <= cap by {
        assert(0 <= s[i].anchor);
    }
}

pub(crate) proof fn lemma_take_ascending(c: Seq<CardV>, cap: int, k: int)
    requires
        ascending(c),
        forall|i: int| 0 <= i < c.len() ==> 0 <= (#[trigger] c[i]).anchor <= cap,
        0 <= k <= c.len(),
    ensures
        ascending(c.take(k)),
        forall|i: int| 0 <= i < k ==> 0 <= (#[trigger] c.take(k)[i]).anchor <= cap,
{
    let t = c.take(k);
    assert forall|i: int, j: int| 0 <= i < j < t.len() implies (#[trigger] t[i]).anchor <= (
    #[trigger] t[j]).anchor by {
        assert(c[i].anchor <= c[j].anchor);
    }
    assert forall|i: int| 0 <= i < k implies 0 <= (#[trigger] t[i]).anchor <= cap by {
        assert(t[i] == c[i]);
    }
}

pub(crate) proof fn lemma_total_nonneg(c: Seq<CardV>)
    ensures
        total_lines(c) >= 0,
    decreases c.len(),
{
    if c.len() > 0 {
        lemma_total_nonneg(c.drop_last());
    }
}

pub(crate) fn copy_lines(v: &Vec<Line>) -> (r: Vec<Line>)
    ensures
        deep(r@) == deep(v@),
{
    broadcast use group_deep;

    let mut out: Vec<Line> = Vec::new();
    let mut i: usize = 0;
    while i < v.len()
        invariant
            i <= v@.len(),
            deep(out@) == deep(v@).take(i as int),
        decreases v@.len() - i,
    {
        out.push(v[i].copy());
        assert(deep(v@).take(i + 1) =~= deep(v@).take(i as int).push(v@[i as int].deep_view()));
        i += 1;
    }
    out
}

// ---- the way back -------------------------------------------------------------------------

/// How many of the positions are below `line`.
pub open spec fn count_below(s: Seq<usize>, line: int) -> int
    decreases s.len(),
{
    if s.len() == 0 {
        0
    } else {
        count_below(s.drop_last(), line) + if s.last() < line {
            1int
        } else {
            0int
        }
    }
}

pub proof fn lemma_count_below(s: Seq<usize>, line: int, k: int)
    requires
        0 <= k <= s.len(),
        forall|i: int| 0 <= i < k ==> (#[trigger] s[i]) < line,
        forall|i: int| k <= i < s.len() ==> (#[trigger] s[i]) >= line,
    ensures
        count_below(s, line) == k,
    decreases s.len(),
{
    if s.len() > 0 {
        if k == s.len() {
            assert(s[s.len() - 1] < line);
            lemma_count_below(s.drop_last(), line, k - 1);
        } else {
            assert(s[s.len() - 1] >= line);
            lemma_count_below(s.drop_last(), line, k);
        }
    }
}

proof fn lemma_rising_at(s: Seq<usize>, i: int)
    requires
        rising(s),
        0 <= i < s.len(),
    ensures
        s[i] >= i,
    decreases i,
{
    if i > 0 {
        lemma_rising_at(s, i - 1);
        assert(s[i - 1] < s[i]);
    }
}

/// There are never more card lines above a line than lines.
pub proof fn lemma_count_within(s: Seq<usize>, line: int)
    requires
        rising(s),
        0 <= line,
    ensures
        0 <= count_below(s, line) <= line,
        count_below(s, line) <= s.len(),
        forall|i: int| 0 <= i < count_below(s, line) ==> (#[trigger] s[i]) < line,
        forall|i: int| count_below(s, line) <= i < s.len() ==> (#[trigger] s[i]) >= line,
    decreases s.len(),
{
    if s.len() > 0 {
        let d = s.drop_last();
        assert forall|i: int, j: int| 0 <= i < j < d.len() implies d[i] < d[j] by {
            assert(s[i] < s[j]);
        }
        lemma_count_within(d, line);
        let k = count_below(d, line);
        if s.last() < line {
            assert forall|i: int| 0 <= i < d.len() implies (#[trigger] d[i]) < line by {
                assert(s[i] < s[s.len() - 1]);
            }
            if k < d.len() {
                assert(d[k] >= line);
            }
            lemma_rising_at(s, s.len() - 1);
        }
        assert forall|i: int| 0 <= i < count_below(s, line) implies (#[trigger] s[i]) < line by {
            if i < d.len() {
                assert(s[i] == d[i]);
            }
        }
        assert forall|i: int| count_below(s, line) <= i < s.len() implies (#[trigger] s[i]) >= line by {
            if i < d.len() {
                assert(s[i] == d[i]);
            }
        }
    }
}

/// The line of the base document that a line shows; none for a card's line.
pub open spec fn to_base(card_lines: Seq<usize>, line: int) -> Option<int> {
    if card_lines.contains(line as usize) && 0 <= line <= usize::MAX {
        None
    } else {
        Some(line - count_below(card_lines, line))
    }
}

proof fn lemma_count_add(a: Seq<usize>, b: Seq<usize>, line: int)
    ensures
        count_below(a + b, line) == count_below(a, line) + count_below(b, line),
    decreases b.len(),
{
    if b.len() > 0 {
        lemma_count_add(a, b.drop_last(), line);
        assert((a + b).drop_last() =~= a + b.drop_last());
    } else {
        assert(a + b =~= a);
    }
}

proof fn lemma_count_run(start: int, n: nat, line: int)
    requires
        0 <= start,
        start + n <= usize::MAX,
        line <= start || start + n <= line,
    ensures
        count_below(Seq::new(n, |i: int| (start + i) as usize), line) == if line <= start {
            0
        } else {
            n as int
        },
    decreases n,
{
    let s = Seq::new(n, |i: int| (start + i) as usize);
    if n > 0 {
        assert(s.drop_last() =~= Seq::new((n - 1) as nat, |i: int| (start + i) as usize));
        lemma_count_run(start, (n - 1) as nat, line);
    }
}

/// Cards do not disturb the document around them: a line that belongs to no
/// card is the line of the base document that the way back names, and that line
/// exists.
pub proof fn law_cards_leave_the_document_alone(base: Seq<LineV>, c: Seq<CardV>, line: int)
    requires
        ascending(c),
        forall|i: int| 0 <= i < c.len() ==> 0 <= (#[trigger] c[i]).anchor <= base.len(),
        base.len() + total_lines(c) <= usize::MAX,
        0 <= line < spliced(base, c).len(),
        !lines_of_cards(c).contains(line as usize),
    ensures
        0 <= line - count_below(lines_of_cards(c), line) < base.len(),
        spliced(base, c)[line] == base[line - count_below(lines_of_cards(c), line)],
        to_base(lines_of_cards(c), line) == Some(line - count_below(lines_of_cards(c), line)),
    decreases c.len(),
{
    if c.len() > 0 {
        let init = c.drop_last();
        let at = last_start(c);
        let n = c.last().lines.len();
        let a = lines_of_cards(init);
        let run = Seq::new(n, |i: int| (at + i) as usize);
        let whole = spliced(base, init);
        lemma_init(base.len() as int, c);
        lemma_spliced_len(base, c);
        lemma_spliced_len(base, init);
        lemma_total_nonneg(init);
        lemma_card_lines(base, init);
        lemma_card_lines(base, c);
        lemma_count_add(a, run, line);
        assert(lines_of_cards(c) == a + run);
        if init.len() > 0 {
            assert(c[c.len() - 2].anchor <= c[c.len() - 1].anchor);
        }
        assert forall|i: int| 0 <= i < a.len() implies (#[trigger] a[i]) < at by {
            assert(init.len() > 0);
        }
        if at <= line < at + n {
            assert(run[line - at] == line as usize);
            assert((a + run)[a.len() + (line - at)] == line as usize);
        }
        lemma_count_run(at, n, line);
        if line < at {
            assert(!a.contains(line as usize)) by {
                if a.contains(line as usize) {
                    let k = choose|k: int| 0 <= k < a.len() && a[k] == line as usize;
                    assert((a + run)[k] == line as usize);
                }
            }
            law_cards_leave_the_document_alone(base, init, line);
        } else {
            let l0 = line - n;
            assert(!a.contains(l0 as usize)) by {
                if a.contains(l0 as usize) {
                    let k = choose|k: int| 0 <= k < a.len() && a[k] == l0 as usize;
                    assert(a[k] < at);
                }
            }
            law_cards_leave_the_document_alone(base, init, l0);
            lemma_count_below(a, l0, a.len() as int);
            lemma_count_below(a, line, a.len() as int);
        }
    } else {
        assert(lines_of_cards(c) =~= Seq::<usize>::empty());
    }
}

/// The lines that are said to belong to cards rise from top to bottom, and
/// there are as many as the cards have.
pub proof fn law_card_lines_rise(base: Seq<LineV>, c: Seq<CardV>)
    requires
        ascending(c),
        forall|i: int| 0 <= i < c.len() ==> 0 <= (#[trigger] c[i]).anchor <= base.len(),
        base.len() + total_lines(c) <= usize::MAX,
    ensures
        rising(lines_of_cards(c)),
        lines_of_cards(c).len() == total_lines(c),
        spliced(base, c).len() == base.len() + total_lines(c),
        forall|i: int|
            0 <= i < lines_of_cards(c).len() ==> (#[trigger] lines_of_cards(c)[i]) < spliced(base, c).len(),
{
    lemma_card_lines(base, c);
    lemma_spliced_len(base, c);
    if c.len() > 0 {
        assert(0 <= c[c.len() - 1].anchor <= base.len());
    }
}

/// A card stands where it is said to start, whole.
pub proof fn law_cards_stand_whole(base: Seq<LineV>, c: Seq<CardV>)
    requires
        c.len() > 0,
        ascending(c),
        forall|i: int| 0 <= i < c.len() ==> 0 <= (#[trigger] c[i]).anchor <= base.len(),
        base.len() + total_lines(c) <= usize::MAX,
    ensures
        spliced(base, c).subrange(last_start(c), last_start(c) + c.last().lines.len()) == c.last().lines,
{
    lemma_spliced_len(base, c);
    assert(spliced(base, c).subrange(last_start(c), last_start(c) + c.last().lines.len())
        =~= c.last().lines);
}

} // verus!
