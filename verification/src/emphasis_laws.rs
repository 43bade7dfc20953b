//! What is emphasised of a line that was edited, and which lines are paired.

use vstd::prelude::*;

use crate::emphasis::{
    alike, coalesced, edged, emphasis_of, lemma_coalesced_in, lemma_marked_in, lemma_shrink,
    lemma_shrink_end, lemma_side_prefix, marked, new_emphasis, old_emphasis, ranges_in, shrink_end,
    shrink_start, side_text, CharRange, Piece, Tag,
};
use crate::rows::{emphasised, first_alike, pair, paired, run_end, CodeV, LineKind};
use crate::text::{is_blank, is_white};

verus! {

/// Whether a range covers position `i`.
pub open spec fn covers(r: Seq<CharRange>, i: int) -> bool {
    exists|k: int| 0 <= k < r.len() && (#[trigger] r[k]).0 <= i < r[k].1
}

/// Whether one range covers both positions, and so all between them.
pub open spec fn covers_both(r: Seq<CharRange>, i: int, j: int) -> bool {
    exists|k: int| 0 <= k < r.len() && (#[trigger] r[k]).0 <= i && j < r[k].1
}

/// For each character of one side, the tag of the piece that it is from.
pub open spec fn side_tags(c: Seq<Piece>, other: Tag) -> Seq<Tag>
    decreases c.len(),
{
    if c.len() == 0 {
        Seq::empty()
    } else if c.last().0 == other {
        side_tags(c.drop_last(), other)
    } else {
        side_tags(c.drop_last(), other) + Seq::new(c.last().1.len(), |i: int| c.last().0)
    }
}

proof fn lemma_tags(c: Seq<Piece>, other: Tag)
    ensures
        side_tags(c, other).len() == side_text(c, other).len(),
    decreases c.len(),
{
    if c.len() > 0 {
        lemma_tags(c.drop_last(), other);
    }
}

proof fn lemma_marked_covers(c: Seq<Piece>, mark: Tag, other: Tag, i: int)
    requires
        mark != other,
        side_text(c, other).len() <= u32::MAX,
        0 <= i < side_text(c, other).len(),
    ensures
        covers(marked(c, mark, other), i) <==> side_tags(c, other)[i] == mark,
    decreases c.len(),
{
    if c.len() > 0 {
        let d = c.drop_last();
        lemma_tags(d, other);
        lemma_side_prefix(c, other);
        lemma_marked_in(d, mark, other);
        let (r, s) = (marked(d, mark, other), marked(c, mark, other));
        let pos = side_text(d, other).len() as int;
        if i < pos {
            lemma_marked_covers(d, mark, other, i);
        } else {
            assert(side_tags(c, other)[i] == c.last().0);
            assert forall|k: int| 0 <= k < r.len() implies (#[trigger] r[k]).1 <= i by {}
        }
        if c.last().0 == mark && c.last().1.len() > 0 {
            let n = c.last().1.len() as int;
            if i >= pos {
                let k = s.len() - 1;
                assert(s[k].0 <= i < s[k].1);
            } else {
                if covers(r, i) {
                    let k = choose|k: int| 0 <= k < r.len() && (#[trigger] r[k]).0 <= i < r[k].1;
                    assert(s[k].0 <= i < s[k].1);
                }
                if covers(s, i) {
                    let k = choose|k: int| 0 <= k < s.len() && (#[trigger] s[k]).0 <= i < s[k].1;
                    assert(k < r.len());
                    assert(r[k].0 <= i < r[k].1);
                }
            }
        }
    }
}

proof fn lemma_drop_last_in(r: Seq<CharRange>, n: int)
    requires
        ranges_in(r, n),
        r.len() > 0,
    ensures
        ranges_in(r.drop_last(), n),
{
    let d = r.drop_last();
    assert forall|i: int| 0 <= i < d.len() implies (#[trigger] d[i]).0 < d[i].1 <= n by {
        assert(d[i] == r[i]);
    }
    assert forall|i: int, j: int| 0 <= i < j < d.len() implies (#[trigger] d[i]).1 <= (#[trigger] d[j]).0 by {
        assert(d[i] == r[i] && d[j] == r[j]);
    }
}

/// Ranges with something visible between any two neighbours.
spec fn well_apart(r: Seq<CharRange>, text: Seq<char>) -> bool {
    forall|k: int|
        0 <= k < r.len() - 1 ==> !is_blank(
            text.subrange((#[trigger] r[k]).1 as int, r[k + 1].0 as int),
        )
}

proof fn lemma_coalesced_covers(r: Seq<CharRange>, text: Seq<char>)
    requires
        ranges_in(r, text.len() as int),
    ensures
        forall|i: int| #[trigger] covers(r, i) ==> covers(coalesced(r, text), i),
        forall|i: int|
            0 <= i < text.len() && #[trigger] covers(coalesced(r, text), i) && !is_white(text[i]) ==> covers(r, i),
        well_apart(coalesced(r, text), text),
    decreases r.len(),
{
    if r.len() > 0 {
        let n = text.len() as int;
        let d = r.drop_last();
        lemma_drop_last_in(r, n);
        lemma_coalesced_covers(d, text);
        lemma_coalesced_in(d, text);
        let init = coalesced(d, text);
        let all = coalesced(r, text);
        let x = r.last();
        let merged = init.len() > 0 && is_blank(text.subrange(init.last().1 as int, x.0 as int));
        assert(init.len() > 0 ==> init.last().1 <= x.0) by {
            if init.len() > 0 {
                if d.len() > 0 {
                    assert(r[d.len() - 1].1 <= r[r.len() - 1].0);
                }
            }
        }
        assert forall|i: int| #[trigger] covers(r, i) implies covers(all, i) by {
            let k = choose|k: int| 0 <= k < r.len() && (#[trigger] r[k]).0 <= i < r[k].1;
            if k == r.len() - 1 {
                assert(all[all.len() - 1].0 <= i < all[all.len() - 1].1) by {
                    if merged {
                        assert(init[init.len() - 1].0 < init[init.len() - 1].1);
                    }
                }
            } else {
                assert(d[k] == r[k]);
                assert(covers(d, i));
                let j = choose|j: int| 0 <= j < init.len() && (#[trigger] init[j]).0 <= i < init[j].1;
                assert(all[j].0 <= i < all[j].1);
            }
        }
        assert forall|i: int| 0 <= i < n && #[trigger] covers(all, i) && !is_white(text[i]) implies covers(
            r,
            i,
        ) by {
            let k = choose|k: int| 0 <= k < all.len() && (#[trigger] all[k]).0 <= i < all[k].1;
            if k == all.len() - 1 && x.0 <= i {
                assert(r[r.len() - 1].0 <= i < r[r.len() - 1].1);
            } else {
                if k == all.len() - 1 {
                    assert(merged);
                    if i >= init.last().1 {
                        let gap = text.subrange(init.last().1 as int, x.0 as int);
                        assert(is_white(gap[i - init.last().1]));
                    }
                }
                assert(init[k].0 <= i < init[k].1);
                assert(covers(init, i));
                let j = choose|j: int| 0 <= j < d.len() && (#[trigger] d[j]).0 <= i < d[j].1;
                assert(r[j].0 <= i < r[j].1);
            }
        }
        assert forall|k: int| 0 <= k < all.len() - 1 implies !is_blank(
            text.subrange((#[trigger] all[k]).1 as int, all[k + 1].0 as int),
        ) by {
            if k + 1 < init.len() {
                assert(init[k] == all[k] && init[k + 1].0 == all[k + 1].0);
            }
        }
    }
}

proof fn lemma_apart_joins(r: Seq<CharRange>, text: Seq<char>, i: int, j: int)
    requires
        ranges_in(r, text.len() as int),
        well_apart(r, text),
        covers(r, i),
        covers(r, j),
        0 <= i < j < text.len(),
        forall|m: int| i < m < j ==> is_white(#[trigger] text[m]),
    ensures
        covers_both(r, i, j),
{
    let a = choose|k: int| 0 <= k < r.len() && (#[trigger] r[k]).0 <= i < r[k].1;
    let b = choose|k: int| 0 <= k < r.len() && (#[trigger] r[k]).0 <= j < r[k].1;
    if a < b {
        let gap = text.subrange(r[a].1 as int, r[a + 1].0 as int);
        assert(r[a].1 <= r[a + 1].0);
        assert(r[a + 1].0 <= r[b].0) by {
            if a + 1 < b {
                assert(r[a + 1].1 <= r[b].0);
            }
        }
        assert forall|m: int| 0 <= m < gap.len() implies is_white(#[trigger] gap[m]) by {
            assert(gap[m] == text[r[a].1 + m]);
        }
        assert(is_blank(gap));
    } else if b < a {
        assert(r[b].1 <= r[a].0);
    }
    assert(r[a].0 <= i && j < r[a].1);
}

proof fn lemma_shrunk(a: u32, b: u32, text: Seq<char>, i: int)
    requires
        a <= i < b,
        !is_white(text[i]),
    ensures
        shrink_start(a, b, text) <= i,
        shrink_end(a, b, text) > i,
    decreases b - a,
{
    if is_white(text[a as int]) {
        lemma_shrunk_start((a + 1) as u32, b, text, i);
    }
    lemma_shrunk_end(a, b, text, i);
}

proof fn lemma_shrunk_start(a: u32, b: u32, text: Seq<char>, i: int)
    requires
        a <= i < b,
        !is_white(text[i]),
    ensures
        shrink_start(a, b, text) <= i,
    decreases b - a,
{
    if is_white(text[a as int]) {
        lemma_shrunk_start((a + 1) as u32, b, text, i);
    }
}

proof fn lemma_shrunk_end(a: u32, b: u32, text: Seq<char>, i: int)
    requires
        a <= i < b,
        !is_white(text[i]),
    ensures
        shrink_end(a, b, text) > i,
    decreases b - a,
{
    if is_white(text[b - 1]) {
        lemma_shrunk_end(a, (b - 1) as u32, text, i);
    }
}

proof fn lemma_edged_covers(r: Seq<CharRange>, text: Seq<char>, i: int, j: int)
    requires
        ranges_in(r, text.len() as int),
        0 <= i <= j < text.len(),
        !is_white(text[i]),
        !is_white(text[j]),
    ensures
        covers_both(r, i, j) ==> covers_both(edged(r, text), i, j),
        covers(edged(r, text), i) ==> covers(r, i),
    decreases r.len(),
{
    if r.len() > 0 {
        let d = r.drop_last();
        lemma_drop_last_in(r, text.len() as int);
        lemma_edged_covers(d, text, i, j);
        let x = r.last();
        let a = shrink_start(x.0, x.1, text);
        let b = shrink_end(a, x.1, text);
        let (init, all) = (edged(d, text), edged(r, text));
        assert(r[r.len() - 1].0 < r[r.len() - 1].1);
        lemma_shrink(x.0, x.1, text);
        lemma_shrink_end(a, x.1, text);
        if covers_both(r, i, j) {
            let k = choose|k: int| 0 <= k < r.len() && (#[trigger] r[k]).0 <= i && j < r[k].1;
            if k == r.len() - 1 {
                lemma_shrunk(x.0, x.1, text, i);
                lemma_shrunk_end(a, x.1, text, j);
                assert(all[all.len() - 1].0 <= i && j < all[all.len() - 1].1);
            } else {
                assert(d[k].0 <= i && j < d[k].1);
                assert(covers_both(d, i, j));
                let m = choose|m: int| 0 <= m < init.len() && (#[trigger] init[m]).0 <= i && j < init[m].1;
                assert(all[m].0 <= i && j < all[m].1);
            }
        }
        if covers(all, i) {
            let k = choose|k: int| 0 <= k < all.len() && (#[trigger] all[k]).0 <= i < all[k].1;
            if k == init.len() {
                assert(r[r.len() - 1].0 <= i < r[r.len() - 1].1);
            } else {
                assert(init[k].0 <= i < init[k].1);
                assert(covers(d, i));
                let m = choose|m: int| 0 <= m < d.len() && (#[trigger] d[m]).0 <= i < d[m].1;
                assert(r[m].0 <= i < r[m].1);
            }
        }
    }
}

/// A visible character of a line is emphasised if and only if it is from a piece
/// that changed. Between two changed words with nothing but whitespace between
/// them the emphasis runs on.
pub proof fn law_changed_words_are_emphasised(c: Seq<Piece>, mark: Tag, other: Tag, i: int, j: int)
    requires
        mark != other,
        side_text(c, other).len() <= u32::MAX,
        0 <= i < side_text(c, other).len(),
        !is_white(side_text(c, other)[i]),
    ensures
        side_tags(c, other).len() == side_text(c, other).len(),
        covers(emphasis_of(c, mark, other, side_text(c, other)), i) <==> side_tags(c, other)[i] == mark,
        i < j < side_text(c, other).len() && !is_white(side_text(c, other)[j]) && side_tags(c, other)[i]
            == mark && side_tags(c, other)[j] == mark && (forall|m: int|
            i < m < j ==> is_white(#[trigger] side_text(c, other)[m])) ==> covers_both(
            emphasis_of(c, mark, other, side_text(c, other)),
            i,
            j,
        ),
{
    let text = side_text(c, other);
    let r = marked(c, mark, other);
    let s = coalesced(r, text);
    let e = emphasis_of(c, mark, other, text);
    lemma_tags(c, other);
    lemma_marked_in(c, mark, other);
    lemma_marked_covers(c, mark, other, i);
    lemma_coalesced_in(r, text);
    lemma_coalesced_covers(r, text);
    lemma_edged_covers(s, text, i, i);
    if covers(r, i) {
        assert(covers(s, i));
        let k = choose|k: int| 0 <= k < s.len() && (#[trigger] s[k]).0 <= i < s[k].1;
        assert(s[k].0 <= i && i < s[k].1);
        assert(covers_both(s, i, i));
        let m = choose|m: int| 0 <= m < e.len() && (#[trigger] e[m]).0 <= i && i < e[m].1;
        assert(e[m].0 <= i < e[m].1);
    }
    if i < j < text.len() && !is_white(text[j]) && side_tags(c, other)[i] == mark && side_tags(c, other)[j]
        == mark && (forall|m: int| i < m < j ==> is_white(#[trigger] text[m])) {
        lemma_marked_covers(c, mark, other, j);
        lemma_apart_joins(s, text, i, j);
        lemma_edged_covers(s, text, i, j);
    }
}

// ---- pairs ----------------------------------------------------------------------------

proof fn lemma_first_alike_is(rows: Seq<CodeV>, d: int, p: int, end: int)
    requires
        p <= end,
    ensures
        p <= first_alike(rows, d, p, end) <= end,
        first_alike(rows, d, p, end) < end ==> alike(
            rows[d].text(),
            rows[first_alike(rows, d, p, end)].text(),
        ),
        forall|q: int|
            p <= q < first_alike(rows, d, p, end) ==> !alike(rows[d].text(), (#[trigger] rows[q]).text()),
    decreases end - p,
{
    if p < end && !alike(rows[d].text(), rows[p].text()) {
        lemma_first_alike_is(rows, d, p + 1, end);
    }
}

/// Whether `m` pairs each deleted line of a block with an inserted line that is
/// alike: in order, each inserted line at most once, and none passed over that is
/// alike and still free. A pair is emphasised by how its two lines differ, and no
/// other line is touched.
pub open spec fn pairs_up(m: Map<int, int>, rows: Seq<CodeV>, out: Seq<CodeV>, d: int, dels: int, next: int, end: int) -> bool {
    &&& out.len() == rows.len()
    &&& forall|k: int| #[trigger]
        m.dom().contains(k) ==> {
            &&& d <= k < dels
            &&& next <= m[k] < end
            &&& alike(rows[k].text(), rows[m[k]].text())
            &&& out[k] == CodeV {
                emphasis: old_emphasis(rows[k].text(), rows[m[k]].text()),
                ..rows[k]
            }
            &&& out[m[k]] == CodeV {
                emphasis: new_emphasis(rows[k].text(), rows[m[k]].text()),
                ..rows[m[k]]
            }
        }
    &&& forall|j: int, k: int|
        #![trigger m[j], m[k]]
        m.dom().contains(j) && m.dom().contains(k) && j < k ==> m[j] < m[k]
    &&& forall|i: int|
        0 <= i < rows.len() && !m.dom().contains(i) && !(exists|k: int| #[trigger]
            m.dom().contains(k) && m[k] == i) ==> #[trigger] out[i] == rows[i]
    &&& forall|k: int, p: int|
        #![trigger rows[k].text(), rows[p].text()]
        d <= k < dels && next <= p < end && alike(rows[k].text(), rows[p].text()) ==> {
            ||| m.dom().contains(k) && m[k] <= p
            ||| exists|j: int| #[trigger] m.dom().contains(j) && j < k && m[j] >= p
        }
}

/// The deleted lines of a block are paired with the inserted lines behind them.
pub proof fn law_edited_lines_are_paired(rows: Seq<CodeV>, d: int, dels: int, next: int, end: int) -> (m: Map<int, int>)
    requires
        0 <= d <= dels <= next <= end <= rows.len(),
    ensures
        pairs_up(m, rows, paired(rows, d, dels, next, end), d, dels, next, end),
    decreases dels - d,
{
    if d >= dels {
        Map::empty()
    } else {
        let p = first_alike(rows, d, next, end);
        lemma_first_alike_is(rows, d, next, end);
        let out = paired(rows, d, dels, next, end);
        if p < end {
            let mid = pair(rows, d, p);
            let m0 = law_edited_lines_are_paired(mid, d + 1, dels, p + 1, end);
            let m = m0.insert(d, p);
            lemma_pair_first(rows, d, dels, next, end, m0);
            m
        } else {
            let m = law_edited_lines_are_paired(rows, d + 1, dels, next, end);
            assert forall|k: int, q: int|
                #![trigger rows[k].text(), rows[q].text()]
                d <= k < dels && next <= q < end && alike(rows[k].text(), rows[q].text()) implies {
                ||| m.dom().contains(k) && m[k] <= q
                ||| exists|j: int| #[trigger] m.dom().contains(j) && j < k && m[j] >= q
            } by {
                if k == d {
                    assert(!alike(rows[d].text(), rows[q].text()));
                }
            }
            m
        }
    }
}

proof fn lemma_pair_first(rows: Seq<CodeV>, d: int, dels: int, next: int, end: int, m0: Map<int, int>)
    requires
        0 <= d < dels <= next <= end <= rows.len(),
        first_alike(rows, d, next, end) < end,
        ({
            let p = first_alike(rows, d, next, end);
            let mid = pair(rows, d, p);
            pairs_up(m0, mid, paired(mid, d + 1, dels, p + 1, end), d + 1, dels, p + 1, end)
        }),
    ensures
        pairs_up(
            m0.insert(d, first_alike(rows, d, next, end)),
            rows,
            paired(rows, d, dels, next, end),
            d,
            dels,
            next,
            end,
        ),
{
    let p = first_alike(rows, d, next, end);
    lemma_first_alike_is(rows, d, next, end);
    let mid = pair(rows, d, p);
    let m = m0.insert(d, p);
    let out = paired(rows, d, dels, next, end);
    assert forall|i: int| 0 <= i < rows.len() implies (#[trigger] mid[i]).text() == rows[i].text() && mid[i].bare()
        == rows[i].bare() by {}
    assert(!m0.dom().contains(d));
    assert forall|k: int| #[trigger] m0.dom().contains(k) implies m0[k] != p && m0[k] != d && k != p && mid[k]
        == rows[k] && mid[m0[k]] == rows[m0[k]] by {}
    assert(!m0.dom().contains(p));
    assert(out[d] == mid[d]);
    assert(out[p] == mid[p]);
    assert forall|k: int| #[trigger] m.dom().contains(k) implies {
        &&& d <= k < dels
        &&& next <= m[k] < end
        &&& alike(rows[k].text(), rows[m[k]].text())
        &&& out[k] == CodeV { emphasis: old_emphasis(rows[k].text(), rows[m[k]].text()), ..rows[k] }
        &&& out[m[k]] == CodeV { emphasis: new_emphasis(rows[k].text(), rows[m[k]].text()), ..rows[m[k]] }
    } by {
        if k != d {
            assert(m0.dom().contains(k));
        }
    }
    assert forall|j: int, k: int|
        #![trigger m[j], m[k]]
        m.dom().contains(j) && m.dom().contains(k) && j < k implies m[j] < m[k] by {
        assert(k != d ==> m0.dom().contains(k));
        assert(j != d ==> m0.dom().contains(j));
        if j != d {
            assert(m0[j] < m0[k]);
        }
    }
    assert forall|i: int|
        0 <= i < rows.len() && !m.dom().contains(i) && !(exists|k: int| #[trigger]
            m.dom().contains(k) && m[k] == i) implies #[trigger] out[i] == rows[i] by {
        assert(m.dom().contains(d) && m[d] == p);
        assert(i != d && i != p);
        if exists|k: int| #[trigger] m0.dom().contains(k) && m0[k] == i {
            let k = choose|k: int| #[trigger] m0.dom().contains(k) && m0[k] == i;
            assert(m.dom().contains(k) && m[k] == i);
        }
        assert(out[i] == mid[i]);
    }
    assert forall|k: int, q: int|
        #![trigger rows[k].text(), rows[q].text()]
        d <= k < dels && next <= q < end && alike(rows[k].text(), rows[q].text()) implies {
        ||| m.dom().contains(k) && m[k] <= q
        ||| exists|j: int| #[trigger] m.dom().contains(j) && j < k && m[j] >= q
    } by {
        if k == d {
            if q < p {
                assert(!alike(rows[d].text(), rows[q].text()));
            }
            assert(m.dom().contains(d) && m[d] == p);
        } else if q <= p {
            assert(m.dom().contains(d) && m[d] == p);
        } else {
            assert(mid[k].text() == rows[k].text() && mid[q].text() == rows[q].text());
            if m0.dom().contains(k) && m0[k] <= q {
                assert(m.dom().contains(k) && m[k] == m0[k]);
            } else {
                let j = choose|j: int| #[trigger] m0.dom().contains(j) && j < k && m0[j] >= q;
                assert(m.dom().contains(j) && m[j] == m0[j]);
            }
        }
    }
}

/// The lines are walked block by block: deleted lines are paired with the inserted
/// lines right behind them, and unchanged lines stay as they are.
pub proof fn law_blocks_are_paired_in_turn(rows: Seq<CodeV>, i: int, d: int, e: int)
    requires
        0 <= i <= d <= e <= rows.len(),
        forall|k: int| i <= k < d ==> (#[trigger] rows[k]).kind == LineKind::Deletion,
        forall|k: int| d <= k < e ==> (#[trigger] rows[k]).kind == LineKind::Insertion,
        e < rows.len() ==> rows[e].kind == LineKind::Context,
    ensures
        i < e && i < d ==> emphasised(rows, i) == emphasised(paired(rows, i, d, d, e), e),
        i == d && d == e && e < rows.len() ==> emphasised(rows, i) == emphasised(rows, e + 1),
{
    if i < rows.len() {
        lemma_run_is(rows, LineKind::Deletion, i, d);
        lemma_run_is(rows, LineKind::Insertion, d, e);
    }
}

proof fn lemma_run_is(rows: Seq<CodeV>, kind: LineKind, i: int, d: int)
    requires
        0 <= i <= d <= rows.len(),
        forall|k: int| i <= k < d ==> (#[trigger] rows[k]).kind == kind,
        d < rows.len() ==> rows[d].kind != kind,
    ensures
        run_end(rows, kind, i) == d,
    decreases d - i,
{
    if i < d {
        lemma_run_is(rows, kind, i + 1, d);
    }
}

} // verus!
