//! Tabs, shown as spaces: a terminal cell holds no tab.

use vstd::prelude::*;

use crate::style::{line, span, Line, LineV, Span, SpanV};
use crate::text::{chars_of, deep, group_deep};

verus! {

/// `n` spaces.
pub open spec fn spaces(n: nat) -> Seq<char> {
    Seq::new(n, |i: int| ' ')
}

/// A text with each tab as `width` spaces.
pub open spec fn untabbed(s: Seq<char>, width: nat) -> Seq<char>
    decreases s.len(),
{
    if s.len() == 0 {
        Seq::empty()
    } else if s.last() == '\t' {
        untabbed(s.drop_last(), width) + spaces(width)
    } else {
        untabbed(s.drop_last(), width).push(s.last())
    }
}

pub open spec fn untabbed_spans(spans: Seq<SpanV>, width: nat) -> Seq<SpanV> {
    Seq::new(spans.len(), |i: int| span(untabbed(spans[i].content, width), spans[i].style))
}

/// A line with each tab as `width` spaces, in the style that the tab had.
pub open spec fn untabbed_line(l: LineV, width: nat) -> LineV {
    line(untabbed_spans(l.spans, width), l.style)
}

fn push_spaces(out: &mut String, n: usize)
    ensures
        final(out)@ == old(out)@ + spaces(n as nat),
{
    let ghost before = out@;
    let mut i: usize = 0;
    assert(before + spaces(0) =~= before);
    while i < n
        invariant
            i <= n,
            out@ == before + spaces(i as nat),
        decreases n - i,
    {
        out.push(' ');
        i += 1;
        assert(out@ =~= before + spaces(i as nat));
    }
}

pub fn expand_tabs(s: &str, width: usize) -> (r: String)
    ensures
        r@ == untabbed(s@, width as nat),
{
    let v: Vec<char> = chars_of(s);
    let mut out: String = String::new();
    let mut i: usize = 0;
    while i < v.len()
        invariant
            i <= v@.len(),
            v@ == s@,
            out@ == untabbed(s@.take(i as int), width as nat),
        decreases v@.len() - i,
    {
        assert(s@.take(i + 1).drop_last() =~= s@.take(i as int));
        if v[i] == '\t' {
            push_spaces(&mut out, width);
        } else {
            out.push(v[i]);
        }
        i += 1;
    }
    assert(s@.take(i as int) =~= s@);
    out
}

/// A line with its tabs expanded.
pub fn expand_line(l: Line, width: usize) -> (r: Line)
    ensures
        r.deep_view() == untabbed_line(l.deep_view(), width as nat),
{
    broadcast use group_deep;

    let ghost all = deep(l.spans@);
    let ghost want = untabbed_spans(all, width as nat);
    let mut spans: Vec<Span> = Vec::new();
    let mut i: usize = 0;
    assert(deep(spans@) =~= want.take(0));
    while i < l.spans.len()
        invariant
            i <= l.spans@.len(),
            all == deep(l.spans@),
            want == untabbed_spans(all, width as nat),
            deep(spans@) == want.take(i as int),
        decreases l.spans@.len() - i,
    {
        let s: Span = Span::styled(
            expand_tabs(l.spans[i].content.as_str(), width),
            l.spans[i].style,
        );
        assert(all[i as int] == l.spans@[i as int].deep_view());
        assert(s.deep_view() == want[i as int]);
        let ghost before = deep(spans@);
        spans.push(s);
        assert(deep(spans@) =~= before.push(want[i as int]));
        assert(want.take(i + 1) =~= want.take(i as int).push(want[i as int]));
        i += 1;
    }
    assert(want.take(i as int) =~= want);
    Line { spans, style: l.style }
}

/// No tab is left, and a text without one stays as it is.
pub proof fn law_tabs_are_gone(s: Seq<char>, width: nat)
    ensures
        !untabbed(s, width).contains('\t'),
        !s.contains('\t') ==> untabbed(s, width) == s,
    decreases s.len(),
{
    if s.len() > 0 {
        let init = s.drop_last();
        law_tabs_are_gone(init, width);
        let u = untabbed(init, width);
        let r = untabbed(s, width);
        assert forall|i: int| 0 <= i < r.len() implies r[i] != '\t' by {
            if i < u.len() {
                assert(u[i] != '\t') by {
                    if u[i] == '\t' {
                        assert(u.contains('\t'));
                    }
                }
            }
        }
        if !s.contains('\t') {
            assert(s[s.len() - 1] != '\t');
            assert(!init.contains('\t')) by {
                if init.contains('\t') {
                    let k = init.index_of('\t');
                    assert(s[k] == '\t');
                }
            }
            assert(r =~= s);
        }
    }
}

} // verus!
