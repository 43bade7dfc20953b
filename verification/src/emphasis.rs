//! Which words of a changed line are new.

use vstd::prelude::*;

use crate::text::{chars_of, deep, group_deep, is_blank, is_white, is_whitespace};

verus! {

/// `[start, end)` in characters.
pub type CharRange = (u32, u32);

#[derive(Debug, Clone, Copy, PartialEq, Eq, Structural)]
pub enum Tag {
    Equal,
    Delete,
    Insert,
}

impl DeepView for Tag {
    type V = Tag;

    open spec fn deep_view(&self) -> Tag {
        *self
    }
}

/// A change: a piece of text, and which side it is on.
pub type Piece = (Tag, Seq<char>);

/// The text of one side: every piece but those of the other side alone.
pub open spec fn side_text(c: Seq<Piece>, other: Tag) -> Seq<char>
    decreases c.len(),
{
    if c.len() == 0 {
        Seq::empty()
    } else if c.last().0 == other {
        side_text(c.drop_last(), other)
    } else {
        side_text(c.drop_last(), other) + c.last().1
    }
}

/// The word changes that `similar` finds between two texts.
pub uninterp spec fn word_diff(old: Seq<char>, new: Seq<char>) -> Seq<Piece>;

/// The bits of the word similarity that `similar` finds between two texts.
pub uninterp spec fn word_similarity(old: Seq<char>, new: Seq<char>) -> u32;

/// `similar::TextDiff::from_words` and `iter_all_changes`: a function of the
/// two texts. The pieces that are kept or deleted make up the old text, the
/// pieces that are kept or inserted make up the new one.
#[verifier::external_body]
fn diff_words(old: &str, new: &str) -> (r: Vec<(Tag, String)>)
    ensures
        deep(r@) == word_diff(old@, new@),
        side_text(deep(r@), Tag::Insert) == old@,
        side_text(deep(r@), Tag::Delete) == new@,
{
    similar::TextDiff::from_words(old, new).iter_all_changes().map(|c| match c.tag() {
        similar::ChangeTag::Equal => (Tag::Equal, c.value().to_string()),
        similar::ChangeTag::Delete => (Tag::Delete, c.value().to_string()),
        similar::ChangeTag::Insert => (Tag::Insert, c.value().to_string()),
    }).collect()
}

/// `similar::TextDiff::ratio` of a word diff, as the bits of the number: a
/// function of the two texts. Ratios are not negative, so their bits are in
/// the order of the numbers.
#[verifier::external_body]
fn words_ratio(old: &str, new: &str) -> (r: u32)
    ensures
        r == word_similarity(old@, new@),
{
    similar::TextDiff::from_words(old, new).ratio().to_bits()
}

/// Below this similarity, seven tenths, two lines are different lines and not
/// one line edited. These are the bits of the number.
pub const MIN_SIMILARITY: u32 = 0x3f33_3333;

// ---- ranges ----------------------------------------------------------------------

/// Ranges of a text of `n` characters: not empty, ascending, apart.
pub open spec fn ranges_in(r: Seq<CharRange>, n: int) -> bool {
    &&& forall|i: int| 0 <= i < r.len() ==> (#[trigger] r[i]).0 < r[i].1 <= n
    &&& forall|i: int, j: int| 0 <= i < j < r.len() ==> (#[trigger] r[i]).1 <= (#[trigger] r[j]).0
}

/// `len` characters from `pos` on added to the ranges; a range that ends there
/// grows.
pub open spec fn pushed(r: Seq<CharRange>, pos: int, len: int) -> Seq<CharRange> {
    if len == 0 {
        r
    } else if r.len() > 0 && r.last().1 == pos {
        r.drop_last().push((r.last().0, (pos + len) as u32))
    } else {
        r.push((pos as u32, (pos + len) as u32))
    }
}

/// The ranges of the pieces marked `mark`, in the text of the side without
/// `other`.
pub open spec fn marked(c: Seq<Piece>, mark: Tag, other: Tag) -> Seq<CharRange>
    decreases c.len(),
{
    if c.len() == 0 {
        Seq::empty()
    } else {
        let init = marked(c.drop_last(), mark, other);
        if c.last().0 == mark {
            pushed(init, side_text(c.drop_last(), other).len() as int, c.last().1.len() as int)
        } else {
            init
        }
    }
}

/// Ranges with nothing but whitespace between them made one.
pub open spec fn coalesced(r: Seq<CharRange>, text: Seq<char>) -> Seq<CharRange>
    decreases r.len(),
{
    if r.len() == 0 {
        Seq::empty()
    } else {
        let init = coalesced(r.drop_last(), text);
        let x = r.last();
        if init.len() > 0 && is_blank(text.subrange(init.last().1 as int, x.0 as int)) {
            init.drop_last().push((init.last().0, x.1))
        } else {
            init.push(x)
        }
    }
}

/// The start of a range without leading whitespace.
pub open spec fn shrink_start(a: u32, b: u32, text: Seq<char>) -> u32
    decreases b - a,
{
    if a < b && is_white(text[a as int]) {
        shrink_start((a + 1) as u32, b, text)
    } else {
        a
    }
}

/// The end of a range without trailing whitespace.
pub open spec fn shrink_end(a: u32, b: u32, text: Seq<char>) -> u32
    decreases b - a,
{
    if a < b && is_white(text[b - 1]) {
        shrink_end(a, (b - 1) as u32, text)
    } else {
        b
    }
}

/// Ranges without whitespace at their edges; what is left empty is dropped.
pub open spec fn edged(r: Seq<CharRange>, text: Seq<char>) -> Seq<CharRange>
    decreases r.len(),
{
    if r.len() == 0 {
        Seq::empty()
    } else {
        let init = edged(r.drop_last(), text);
        let a = shrink_start(r.last().0, r.last().1, text);
        let b = shrink_end(a, r.last().1, text);
        if a < b {
            init.push((a, b))
        } else {
            init
        }
    }
}

/// What is emphasised of one side of a changed line.
pub open spec fn emphasis_of(c: Seq<Piece>, mark: Tag, other: Tag, text: Seq<char>) -> Seq<CharRange> {
    edged(coalesced(marked(c, mark, other), text), text)
}

pub(crate) proof fn lemma_side_prefix(c: Seq<Piece>, other: Tag)
    ensures
        c.len() > 0 ==> side_text(c.drop_last(), other).len() <= side_text(c, other).len(),
        c.len() > 0 && c.last().0 != other ==> side_text(c.drop_last(), other).len()
            + c.last().1.len() == side_text(c, other).len(),
{
}

proof fn lemma_side_take(c: Seq<Piece>, other: Tag, k: int)
    requires
        0 <= k <= c.len(),
    ensures
        side_text(c.take(k), other).len() <= side_text(c, other).len(),
    decreases c.len() - k,
{
    if k < c.len() {
        lemma_side_take(c, other, k + 1);
        assert(c.take(k + 1).drop_last() =~= c.take(k));
        lemma_side_prefix(c.take(k + 1), other);
    } else {
        assert(c.take(k) =~= c);
    }
}

/// Add `len` characters from `pos` on to the ranges.
pub fn push_range(ranges: &mut Vec<CharRange>, pos: u32, len: u32)
    requires
        pos + len <= u32::MAX,
    ensures
        final(ranges)@ == pushed(old(ranges)@, pos as int, len as int),
{
    if len == 0 {
        return;
    }
    let n: usize = ranges.len();
    if n > 0 && ranges[n - 1].1 == pos {
        let ghost before = ranges@;
        let start: u32 = ranges[n - 1].0;
        ranges.set(n - 1, (start, pos + len));
        assert(ranges@ =~= before.drop_last().push((start, (pos + len) as u32)));
    } else {
        ranges.push((pos, pos + len));
    }
}

proof fn lemma_pushed_in(r: Seq<CharRange>, pos: int, len: int)
    requires
        ranges_in(r, pos),
        0 <= len,
        pos + len <= u32::MAX,
        0 <= pos,
    ensures
        ranges_in(pushed(r, pos, len), pos + len),
{
    let p = pushed(r, pos, len);
    if len > 0 {
        if r.len() > 0 && r.last().1 == pos {
            assert forall|i: int| 0 <= i < p.len() implies (#[trigger] p[i]).0 < p[i].1 <= pos + len by {
                if i < r.len() - 1 {
                    assert(p[i] == r[i]);
                } else {
                    assert(r[r.len() - 1].0 < r[r.len() - 1].1);
                }
            }
            assert forall|i: int, j: int| 0 <= i < j < p.len() implies (#[trigger] p[i]).1 <= (#[trigger] p[j]).0 by {
                assert(r[i].1 <= r[j].0);
            }
        } else {
            assert forall|i: int, j: int| 0 <= i < j < p.len() implies (#[trigger] p[i]).1 <= (#[trigger] p[j]).0 by {
                if j < r.len() {
                    assert(r[i].1 <= r[j].0);
                } else {
                    assert(r[i].1 <= pos);
                }
            }
        }
    }
}

proof fn lemma_ranges_widen(r: Seq<CharRange>, m: int, n: int)
    requires
        ranges_in(r, m),
        m <= n,
    ensures
        ranges_in(r, n),
{
}

/// The ranges of the marked pieces lie in the text of their side.
pub(crate) proof fn lemma_marked_in(c: Seq<Piece>, mark: Tag, other: Tag)
    requires
        mark != other,
        side_text(c, other).len() <= u32::MAX,
    ensures
        ranges_in(marked(c, mark, other), side_text(c, other).len() as int),
    decreases c.len(),
{
    if c.len() > 0 {
        lemma_side_prefix(c, other);
        lemma_marked_in(c.drop_last(), mark, other);
        let m = side_text(c.drop_last(), other).len() as int;
        if c.last().0 == mark {
            lemma_pushed_in(marked(c.drop_last(), mark, other), m, c.last().1.len() as int);
        } else {
            lemma_ranges_widen(
                marked(c.drop_last(), mark, other),
                m,
                side_text(c, other).len() as int,
            );
        }
    }
}

pub(crate) proof fn lemma_coalesced_in(r: Seq<CharRange>, text: Seq<char>)
    requires
        ranges_in(r, text.len() as int),
    ensures
        ranges_in(coalesced(r, text), text.len() as int),
        r.len() > 0 ==> coalesced(r, text).len() > 0 && coalesced(r, text).last().1 == r.last().1,
    decreases r.len(),
{
    if r.len() > 0 {
        let n = text.len() as int;
        let d = r.drop_last();
        assert forall|i: int| 0 <= i < d.len() implies (#[trigger] d[i]).0 < d[i].1 <= n by {
            assert(d[i] == r[i]);
        }
        assert forall|i: int, j: int| 0 <= i < j < d.len() implies (#[trigger] d[i]).1 <= (#[trigger] d[j]).0 by {
            assert(r[i].1 <= r[j].0);
        }
        lemma_coalesced_in(d, text);
        let init = coalesced(d, text);
        let c = coalesced(r, text);
        let x = r[r.len() - 1];
        assert(x.0 < x.1 <= n);
        if d.len() > 0 {
            assert(r[r.len() - 2].1 <= x.0);
            assert(init.last().1 <= x.0);
            assert forall|i: int| 0 <= i < init.len() implies (#[trigger] init[i]).1 <= x.0 by {
                if i < init.len() - 1 {
                    assert(init[i].1 <= init[init.len() - 1].0);
                    assert(init[init.len() - 1].0 < init[init.len() - 1].1);
                }
            }
        }
        if init.len() > 0 && is_blank(text.subrange(init.last().1 as int, x.0 as int)) {
            assert(init[init.len() - 1].0 < init[init.len() - 1].1);
            assert forall|i: int| 0 <= i < c.len() implies (#[trigger] c[i]).0 < c[i].1 <= n by {
                if i < c.len() - 1 {
                    assert(c[i] == init[i]);
                }
            }
            assert forall|i: int, j: int| 0 <= i < j < c.len() implies (#[trigger] c[i]).1 <= (#[trigger] c[j]).0 by {
                assert(init[i].1 <= init[j].0);
            }
        } else {
            assert forall|i: int, j: int| 0 <= i < j < c.len() implies (#[trigger] c[i]).1 <= (#[trigger] c[j]).0 by {
                if j < init.len() {
                    assert(init[i].1 <= init[j].0);
                } else {
                    assert(init[i].1 <= x.0);
                }
            }
        }
    }
}

pub(crate) proof fn lemma_shrink(a: u32, b: u32, text: Seq<char>)
    requires
        a <= b,
    ensures
        a <= shrink_start(a, b, text) <= b,
        shrink_start(a, b, text) < b ==> !is_white(text[shrink_start(a, b, text) as int]),
    decreases b - a,
{
    if a < b && is_white(text[a as int]) {
        lemma_shrink((a + 1) as u32, b, text);
    }
}

pub(crate) proof fn lemma_shrink_end(a: u32, b: u32, text: Seq<char>)
    requires
        a <= b,
    ensures
        a <= shrink_end(a, b, text) <= b,
        a < shrink_end(a, b, text) ==> !is_white(text[shrink_end(a, b, text) - 1]),
    decreases b - a,
{
    if a < b && is_white(text[b - 1]) {
        lemma_shrink_end(a, (b - 1) as u32, text);
    }
}

proof fn lemma_edged_in(r: Seq<CharRange>, text: Seq<char>)
    requires
        ranges_in(r, text.len() as int),
    ensures
        ranges_in(edged(r, text), text.len() as int),
        r.len() > 0 && edged(r, text).len() > 0 ==> edged(r, text).last().1 <= r.last().1,
        forall|i: int|
            0 <= i < edged(r, text).len() ==> !is_white(text[(#[trigger] edged(r, text)[i]).0 as int])
                && !is_white(text[edged(r, text)[i].1 - 1]),
    decreases r.len(),
{
    if r.len() > 0 {
        let n = text.len() as int;
        let d = r.drop_last();
        assert forall|i: int| 0 <= i < d.len() implies (#[trigger] d[i]).0 < d[i].1 <= n by {
            assert(d[i] == r[i]);
        }
        assert forall|i: int, j: int| 0 <= i < j < d.len() implies (#[trigger] d[i]).1 <= (#[trigger] d[j]).0 by {
            assert(r[i].1 <= r[j].0);
        }
        lemma_edged_in(d, text);
        let init = edged(d, text);
        let e = edged(r, text);
        let x = r[r.len() - 1];
        let a = shrink_start(x.0, x.1, text);
        let b = shrink_end(a, x.1, text);
        lemma_shrink(x.0, x.1, text);
        lemma_shrink_end(a, x.1, text);
        if d.len() > 0 {
            assert(r[r.len() - 2].1 <= x.0);
            assert(x.0 < x.1);
        }
        assert forall|i: int| 0 <= i < init.len() implies (#[trigger] init[i]).1 <= x.0 by {
            if i < init.len() - 1 {
                assert(init[i].1 <= init[init.len() - 1].0);
                assert(init[init.len() - 1].0 < init[init.len() - 1].1);
            }
            assert(d.len() > 0);
        }
        if a < b {
            assert forall|i: int| 0 <= i < e.len() implies (#[trigger] e[i]).0 < e[i].1 <= n && !is_white(
                text[e[i].0 as int],
            ) && !is_white(text[e[i].1 - 1]) by {
                if i < init.len() {
                    assert(e[i] == init[i]);
                } else {
                    // shrinking from the end never passes a visible start
                    lemma_shrink_both(x.0, x.1, text);
                }
            }
            assert forall|i: int, j: int| 0 <= i < j < e.len() implies (#[trigger] e[i]).1 <= (#[trigger] e[j]).0 by {
                if j < init.len() {
                    assert(init[i].1 <= init[j].0);
                } else {
                    assert(init[i].1 <= x.0);
                }
            }
        } else if init.len() > 0 {
            assert(init[init.len() - 1].1 <= x.0);
        }
    }
}

proof fn lemma_shrink_both(a: u32, b: u32, text: Seq<char>)
    requires
        a <= b,
    ensures
        ({
            let s = shrink_start(a, b, text);
            let e = shrink_end(s, b, text);
            s < e ==> !is_white(text[s as int]) && !is_white(text[e - 1])
        }),
{
    lemma_shrink(a, b, text);
    let s = shrink_start(a, b, text);
    lemma_shrink_end(s, b, text);
    let e = shrink_end(s, b, text);
    if s < e {
        assert(s < b);
    }
}

/// Merge ranges whose gap is whitespace alone.
pub fn coalesce(ranges: &Vec<CharRange>, text: &str) -> (r: Vec<CharRange>)
    requires
        ranges_in(ranges@, text@.len() as int),
    ensures
        r@ == coalesced(ranges@, text@),
        ranges_in(r@, text@.len() as int),
{
    broadcast use group_deep;

    let v: Vec<char> = chars_of(text);
    let mut out: Vec<CharRange> = Vec::new();
    let mut i: usize = 0;
    while i < ranges.len()
        invariant
            i <= ranges@.len(),
            v@ == text@,
            ranges_in(ranges@, text@.len() as int),
            out@ == coalesced(ranges@.take(i as int), text@),
        decreases ranges@.len() - i,
    {
        proof {
            assert(ranges@.take(i + 1).drop_last() =~= ranges@.take(i as int));
            lemma_take_in(ranges@, text@.len() as int, i as int);
            lemma_coalesced_in(ranges@.take(i as int), text@);
            if i > 0 {
                assert(ranges@.take(i as int).last() == ranges@[i - 1]);
                assert(ranges@[i - 1].1 <= ranges@[i as int].0);
            }
            assert(ranges@[i as int].0 < ranges@[i as int].1);
        }
        let x: CharRange = ranges[i];
        let n: usize = out.len();
        let mut white: bool = false;
        if n > 0 {
            let from: usize = out[n - 1].1 as usize;
            let to: usize = x.0 as usize;
            white = true;
            let mut k: usize = from;
            while k < to && white
                invariant
                    from <= k <= to <= v@.len(),
                    white ==> forall|j: int| from <= j < k ==> is_white(#[trigger] v@[j]),
                    !white ==> exists|j: int| from <= j < to && !is_white(#[trigger] v@[j]),
                decreases to - k, if white { 1int } else { 0int },
            {
                if !is_whitespace(v[k]) {
                    assert(!is_white(v@[k as int]));
                    white = false;
                } else {
                    k += 1;
                }
            }
            proof {
                let gap = text@.subrange(from as int, to as int);
                if white {
                    assert forall|j: int| 0 <= j < gap.len() implies is_white(#[trigger] gap[j]) by {
                        assert(gap[j] == v@[from + j]);
                    }
                } else {
                    let j = choose|j: int| from <= j < to && !is_white(#[trigger] v@[j]);
                    assert(gap[j - from] == v@[j]);
                }
                assert(white == is_blank(gap));
            }
        }
        if white {
            let ghost before = out@;
            let start: u32 = out[n - 1].0;
            out.set(n - 1, (start, x.1));
            assert(out@ =~= before.drop_last().push((start, x.1)));
        } else {
            out.push(x);
        }
        i += 1;
    }
    proof {
        lemma_coalesced_in(ranges@, text@);
    }
    out
}

proof fn lemma_take_in(r: Seq<CharRange>, n: int, k: int)
    requires
        ranges_in(r, n),
        0 <= k <= r.len(),
    ensures
        ranges_in(r.take(k), n),
{
    let t = r.take(k);
    assert forall|i: int| 0 <= i < t.len() implies (#[trigger] t[i]).0 < t[i].1 <= n by {
        assert(t[i] == r[i]);
    }
    assert forall|i: int, j: int| 0 <= i < j < t.len() implies (#[trigger] t[i]).1 <= (#[trigger] t[j]).0 by {
        assert(r[i].1 <= r[j].0);
    }
}

/// Take whitespace off the edges of each range, and drop ranges of nothing else.
pub fn trim_edges(ranges: &Vec<CharRange>, text: &str) -> (r: Vec<CharRange>)
    requires
        ranges_in(ranges@, text@.len() as int),
    ensures
        r@ == edged(ranges@, text@),
        ranges_in(r@, text@.len() as int),
{
    broadcast use group_deep;

    let v: Vec<char> = chars_of(text);
    let mut out: Vec<CharRange> = Vec::new();
    let mut i: usize = 0;
    while i < ranges.len()
        invariant
            i <= ranges@.len(),
            v@ == text@,
            ranges_in(ranges@, text@.len() as int),
            out@ == edged(ranges@.take(i as int), text@),
        decreases ranges@.len() - i,
    {
        proof {
            assert(ranges@.take(i + 1).drop_last() =~= ranges@.take(i as int));
            assert(ranges@[i as int].0 < ranges@[i as int].1 <= text@.len());
        }
        let x: CharRange = ranges[i];
        let mut a: u32 = x.0;
        let mut b: u32 = x.1;
        while a < b && is_whitespace(v[a as usize])
            invariant
                x.0 <= a <= b == x.1,
                b <= v@.len(),
                v@ == text@,
                shrink_start(x.0, x.1, text@) == shrink_start(a, x.1, text@),
            decreases b - a,
        {
            a += 1;
        }
        while b > a && is_whitespace(v[b as usize - 1])
            invariant
                a <= b <= x.1,
                x.1 <= v@.len(),
                v@ == text@,
                shrink_end(a, x.1, text@) == shrink_end(a, b, text@),
            decreases b - a,
        {
            b -= 1;
        }
        if a < b {
            out.push((a, b));
        }
        i += 1;
    }
    proof {
        lemma_edged_in(ranges@, text@);
    }
    out
}

/// The emphasised ranges of both sides, given the word changes between them.
pub fn emphasis_from(changes: &Vec<(Tag, String)>, old: &str, new: &str) -> (r: (Vec<CharRange>, Vec<CharRange>))
    requires
        side_text(deep(changes@), Tag::Insert) == old@,
        side_text(deep(changes@), Tag::Delete) == new@,
        old@.len() <= u32::MAX,
        new@.len() <= u32::MAX,
    ensures
        r.0@ == emphasis_of(deep(changes@), Tag::Delete, Tag::Insert, old@),
        r.1@ == emphasis_of(deep(changes@), Tag::Insert, Tag::Delete, new@),
{
    broadcast use group_deep;

    let ghost all = deep(changes@);
    let mut old_ranges: Vec<CharRange> = Vec::new();
    let mut new_ranges: Vec<CharRange> = Vec::new();
    let mut old_pos: u32 = 0;
    let mut new_pos: u32 = 0;
    let mut i: usize = 0;
    while i < changes.len()
        invariant
            i <= changes@.len(),
            all == deep(changes@),
            side_text(all, Tag::Insert) == old@,
            side_text(all, Tag::Delete) == new@,
            old@.len() <= u32::MAX,
            new@.len() <= u32::MAX,
            old_pos == side_text(all.take(i as int), Tag::Insert).len(),
            new_pos == side_text(all.take(i as int), Tag::Delete).len(),
            old_ranges@ == marked(all.take(i as int), Tag::Delete, Tag::Insert),
            new_ranges@ == marked(all.take(i as int), Tag::Insert, Tag::Delete),
        decreases changes@.len() - i,
    {
        let ghost next = all.take(i + 1);
        proof {
            assert(next.drop_last() =~= all.take(i as int));
            assert(all[i as int] == changes@[i as int].deep_view());
            assert(next.last() == all[i as int]);
            lemma_side_take(all, Tag::Insert, i + 1);
            lemma_side_take(all, Tag::Delete, i + 1);
            lemma_side_prefix(next, Tag::Insert);
            lemma_side_prefix(next, Tag::Delete);
        }
        let piece: Vec<char> = chars_of(changes[i].1.as_str());
        let size: usize = piece.len();
        match changes[i].0 {
            Tag::Equal => {
                let len: u32 = size as u32;
                old_pos += len;
                new_pos += len;
            },
            Tag::Delete => {
                let len: u32 = size as u32;
                push_range(&mut old_ranges, old_pos, len);
                old_pos += len;
            },
            Tag::Insert => {
                let len: u32 = size as u32;
                push_range(&mut new_ranges, new_pos, len);
                new_pos += len;
            },
        }
        i += 1;
    }
    proof {
        lemma_marked_in(all, Tag::Delete, Tag::Insert);
        lemma_marked_in(all, Tag::Insert, Tag::Delete);
    }
    let a: Vec<CharRange> = coalesce(&old_ranges, old);
    let b: Vec<CharRange> = coalesce(&new_ranges, new);
    (trim_edges(&a, old), trim_edges(&b, new))
}

/// What is emphasised of the old line.
pub open spec fn old_emphasis(old: Seq<char>, new: Seq<char>) -> Seq<CharRange> {
    emphasis_of(word_diff(old, new), Tag::Delete, Tag::Insert, old)
}

/// What is emphasised of the new line.
pub open spec fn new_emphasis(old: Seq<char>, new: Seq<char>) -> Seq<CharRange> {
    emphasis_of(word_diff(old, new), Tag::Insert, Tag::Delete, new)
}

/// Two lines close enough to be one line edited.
pub open spec fn alike(old: Seq<char>, new: Seq<char>) -> bool {
    word_similarity(old, new) >= MIN_SIMILARITY
}

/// The similarity of two lines, and what is emphasised of each.
pub fn word_emphasis(old: &str, new: &str) -> (r: (u32, Vec<CharRange>, Vec<CharRange>))
    requires
        old@.len() <= u32::MAX,
        new@.len() <= u32::MAX,
    ensures
        r.0 == word_similarity(old@, new@),
        r.1@ == old_emphasis(old@, new@),
        r.2@ == new_emphasis(old@, new@),
{
    let changes: Vec<(Tag, String)> = diff_words(old, new);
    let e: (Vec<CharRange>, Vec<CharRange>) = emphasis_from(&changes, old, new);
    (words_ratio(old, new), e.0, e.1)
}

/// Emphasised ranges lie in their line, ascending and apart, and neither start
/// nor end in whitespace.
pub proof fn law_emphasis_is_visible(c: Seq<Piece>, mark: Tag, other: Tag)
    requires
        mark != other,
        side_text(c, other).len() <= u32::MAX,
    ensures
        ({
            let text = side_text(c, other);
            let e = emphasis_of(c, mark, other, text);
            &&& ranges_in(e, text.len() as int)
            &&& forall|i: int|
                0 <= i < e.len() ==> !is_white(text[(#[trigger] e[i]).0 as int]) && !is_white(
                    text[e[i].1 - 1],
                )
        }),
{
    let text = side_text(c, other);
    lemma_marked_in(c, mark, other);
    lemma_coalesced_in(marked(c, mark, other), text);
    lemma_edged_in(coalesced(marked(c, mark, other), text), text);
}

} // verus!
