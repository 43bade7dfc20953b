//! A diff as styled lines.

use vstd::prelude::*;

use crate::config::Theme;
use crate::emphasis::CharRange;
use crate::rows::{
    bare, code_rows, collapse_context, collapsed, compare, compares, compute_emphasis, emphasised,
    first_inserted, first_inserted_of, has_change, law_emphasis_changes_nothing_else, line_diff,
    lines_in, run_lines, runs_text, short_lines, unfolded, CodeLine, CodeV, LineKind, Row, RowV,
    Run, RunV, GUTTER_CHARS, GUTTER_ROOM,
};
use crate::style::{
    line, painted, rgb, rgb_color, span, spans_text, Color, Line, LineV, Rgb, Span, SpanV, Style,
};
use crate::tabs::{expand_line, untabbed_line};
use crate::text::{
    chars_of, concat2, concat3, decimal, decimal_of, deep, group_deep, has_char, pad_left,
    padded_left, string_of,
};

verus! {

// ---- colours ---------------------------------------------------------------------

/// The colours of a diff.
pub struct Palette {
    pub ins_bg: Rgb,
    pub del_bg: Rgb,
    pub ins_emph_bg: Rgb,
    pub del_emph_bg: Rgb,
    pub gutter: Rgb,
    pub fold_fg: Rgb,
    pub fold_bg: Rgb,
}

pub open spec fn palette(theme: Theme) -> Palette {
    if theme == Theme::Light {
        Palette {
            ins_bg: (0xe6, 0xff, 0xec),
            del_bg: (0xff, 0xeb, 0xe9),
            ins_emph_bg: (0xab, 0xf2, 0xbc),
            del_emph_bg: (0xff, 0xc0, 0xc0),
            gutter: (0x9a, 0xa0, 0xa6),
            fold_fg: (0x7a, 0x80, 0x89),
            fold_bg: (0xdf, 0xe3, 0xea),
        }
    } else {
        Palette {
            ins_bg: (0x1f, 0x3a, 0x2a),
            del_bg: (0x45, 0x23, 0x2f),
            ins_emph_bg: (0x30, 0x55, 0x3f),
            del_emph_bg: (0x6e, 0x34, 0x46),
            gutter: (0x6c, 0x70, 0x86),
            fold_fg: (0x8a, 0x8e, 0xa3),
            fold_bg: (0x2a, 0x2b, 0x3c),
        }
    }
}

impl Palette {
    pub fn new(theme: Theme) -> (r: Palette)
        ensures
            r == palette(theme),
    {
        if theme.is_light() {
            Palette {
                ins_bg: (0xe6, 0xff, 0xec),
                del_bg: (0xff, 0xeb, 0xe9),
                ins_emph_bg: (0xab, 0xf2, 0xbc),
                del_emph_bg: (0xff, 0xc0, 0xc0),
                gutter: (0x9a, 0xa0, 0xa6),
                fold_fg: (0x7a, 0x80, 0x89),
                fold_bg: (0xdf, 0xe3, 0xea),
            }
        } else {
            Palette {
                ins_bg: (0x1f, 0x3a, 0x2a),
                del_bg: (0x45, 0x23, 0x2f),
                ins_emph_bg: (0x30, 0x55, 0x3f),
                del_emph_bg: (0x6e, 0x34, 0x46),
                gutter: (0x6c, 0x70, 0x86),
                fold_fg: (0x8a, 0x8e, 0xa3),
                fold_bg: (0x2a, 0x2b, 0x3c),
            }
        }
    }
}

// ---- emphasis on screen -------------------------------------------------------------

/// Whether the character at `pos` of a rendered line is emphasised.
pub open spec fn in_emphasis(pos: int, prefix: int, ranges: Seq<CharRange>) -> bool {
    pos >= prefix && exists|i: int|
        0 <= i < ranges.len() && (#[trigger] ranges[i]).0 <= pos - prefix < ranges[i].1
}

/// The end of the run of characters with one emphasis status.
pub open spec fn same_end(from: int, len: int, start: int, hit: bool, prefix: int, ranges: Seq<CharRange>) -> int
    decreases len - from,
{
    if from < len && in_emphasis(start + from, prefix, ranges) == hit {
        same_end(from + 1, len, start, hit, prefix, ranges)
    } else {
        from
    }
}

pub open spec fn emphasised_style(style: Style, hit: bool, bg: Color) -> Style {
    if hit {
        Style { bg: Some(bg), ..style }
    } else {
        style
    }
}

/// A span, from `cursor` on, cut where its emphasis changes.
pub open spec fn pieces(s: SpanV, start: int, cursor: int, prefix: int, ranges: Seq<CharRange>, bg: Color) -> Seq<SpanV>
    decreases s.content.len() - cursor,
    when 0 <= cursor
    via pieces_decreases
{
    if cursor >= s.content.len() {
        Seq::empty()
    } else {
        let hit = in_emphasis(start + cursor, prefix, ranges);
        let e = same_end(cursor + 1, s.content.len() as int, start, hit, prefix, ranges);
        seq![span(s.content.subrange(cursor, e), emphasised_style(s.style, hit, bg))] + pieces(
            s,
            start,
            e,
            prefix,
            ranges,
            bg,
        )
    }
}

#[via_fn]
proof fn pieces_decreases(s: SpanV, start: int, cursor: int, prefix: int, ranges: Seq<CharRange>, bg: Color) {
    if cursor < s.content.len() {
        lemma_same_end(
            cursor + 1,
            s.content.len() as int,
            start,
            in_emphasis(start + cursor, prefix, ranges),
            prefix,
            ranges,
        );
    }
}

proof fn lemma_same_end(from: int, len: int, start: int, hit: bool, prefix: int, ranges: Seq<CharRange>)
    requires
        from <= len,
    ensures
        from <= same_end(from, len, start, hit, prefix, ranges) <= len,
        forall|k: int|
            from <= k < same_end(from, len, start, hit, prefix, ranges) ==> #[trigger] in_emphasis(
                start + k,
                prefix,
                ranges,
            ) == hit,
    decreases len - from,
{
    if from < len && in_emphasis(start + from, prefix, ranges) == hit {
        lemma_same_end(from + 1, len, start, hit, prefix, ranges);
        assert forall|k: int|
            from <= k < same_end(from, len, start, hit, prefix, ranges) implies #[trigger] in_emphasis(
            start + k,
            prefix,
            ranges,
        ) == hit by {
            if k > from {
                assert(in_emphasis(start + k, prefix, ranges) == hit);
            }
        }
    }
}

/// A line's spans with the emphasised characters on a stronger background.
pub open spec fn repainted(spans: Seq<SpanV>, prefix: int, ranges: Seq<CharRange>, bg: Color) -> Seq<SpanV>
    decreases spans.len(),
{
    if spans.len() == 0 {
        Seq::empty()
    } else {
        repainted(spans.drop_last(), prefix, ranges, bg) + pieces(
            spans.last(),
            spans_text(spans.drop_last()).len() as int,
            0,
            prefix,
            ranges,
            bg,
        )
    }
}

fn hit_at(pos: u32, prefix: u32, ranges: &Vec<CharRange>) -> (r: bool)
    ensures
        r == in_emphasis(pos as int, prefix as int, ranges@),
{
    if pos < prefix {
        return false;
    }
    let at: u32 = pos - prefix;
    let mut i: usize = 0;
    while i < ranges.len()
        invariant
            i <= ranges@.len(),
            at == pos - prefix,
            forall|j: int| 0 <= j < i ==> !((#[trigger] ranges@[j]).0 <= at < ranges@[j].1),
        decreases ranges@.len() - i,
    {
        if at >= ranges[i].0 && at < ranges[i].1 {
            assert(ranges@[i as int].0 <= pos - prefix < ranges@[i as int].1);
            return true;
        }
        i += 1;
    }
    false
}

fn push_pieces(out: &mut Vec<Span>, s: &Span, start: u32, prefix: u32, ranges: &Vec<CharRange>, bg: Color)
    requires
        start + s.content@.len() <= u32::MAX,
    ensures
        deep(final(out)@) == deep(old(out)@) + pieces(
            s.deep_view(),
            start as int,
            0,
            prefix as int,
            ranges@,
            bg,
        ),
{
    broadcast use group_deep;

    let ghost before = deep(out@);
    let ghost sv = s.deep_view();
    let ghost whole = pieces(sv, start as int, 0, prefix as int, ranges@, bg);
    let v: Vec<char> = chars_of(s.content.as_str());
    let len: u32 = v.len() as u32;
    let mut cursor: u32 = 0;
    assert(before + whole =~= before + whole);
    while cursor < len
        invariant
            cursor <= len == v@.len(),
            v@ == s.content@,
            sv == s.deep_view(),
            start + len <= u32::MAX,
            before + whole == deep(out@) + pieces(
                sv,
                start as int,
                cursor as int,
                prefix as int,
                ranges@,
                bg,
            ),
        decreases len - cursor,
    {
        let hit: bool = hit_at(start + cursor, prefix, ranges);
        let mut end: u32 = cursor + 1;
        while end < len && hit_at(start + end, prefix, ranges) == hit
            invariant
                cursor < end <= len,
                start + len <= u32::MAX,
                same_end(cursor + 1, len as int, start as int, hit, prefix as int, ranges@)
                    == same_end(end as int, len as int, start as int, hit, prefix as int, ranges@),
            decreases len - end,
        {
            end += 1;
        }
        let text: String = string_of(&v, cursor as usize, end as usize);
        let style: Style = if hit {
            s.style.bg(bg)
        } else {
            s.style
        };
        let piece: Span = Span::styled(text, style);
        let ghost pv = piece.deep_view();
        let ghost done = deep(out@);
        out.push(piece);
        assert(deep(out@) == done.push(pv));
        assert(pieces(sv, start as int, cursor as int, prefix as int, ranges@, bg) == seq![pv]
            + pieces(sv, start as int, end as int, prefix as int, ranges@, bg));
        assert(done + (seq![pv] + pieces(sv, start as int, end as int, prefix as int, ranges@, bg))
            =~= done.push(pv) + pieces(sv, start as int, end as int, prefix as int, ranges@, bg));
        cursor = end;
    }
    assert(pieces(sv, start as int, cursor as int, prefix as int, ranges@, bg) =~= Seq::<
        SpanV,
    >::empty());
    assert(deep(out@) =~= before + whole);
}

proof fn lemma_spans_text_take(spans: Seq<SpanV>, k: int)
    requires
        0 <= k <= spans.len(),
    ensures
        spans_text(spans.take(k)).len() <= spans_text(spans).len(),
    decreases spans.len() - k,
{
    if k < spans.len() {
        lemma_spans_text_take(spans, k + 1);
        assert(spans.take(k + 1).drop_last() =~= spans.take(k));
    } else {
        assert(spans.take(k) =~= spans);
    }
}

/// Put the emphasised characters of a change line on a stronger background.
/// `prefix` characters stand before the content that the ranges count from.
pub fn repaint_emphasis(l: &Line, prefix: u32, ranges: &Vec<CharRange>, emph_bg: Rgb) -> (r: Line)
    requires
        spans_text(deep(l.spans@)).len() <= u32::MAX,
    ensures
        r.deep_view() == line(
            repainted(deep(l.spans@), prefix as int, ranges@, rgb_color(emph_bg)),
            l.style,
        ),
{
    broadcast use group_deep;

    let bg: Color = rgb(emph_bg);
    let ghost all = deep(l.spans@);
    let mut out: Vec<Span> = Vec::new();
    let mut pos: u32 = 0;
    let mut i: usize = 0;
    while i < l.spans.len()
        invariant
            i <= l.spans@.len(),
            all == deep(l.spans@),
            spans_text(all).len() <= u32::MAX,
            bg == rgb_color(emph_bg),
            pos == spans_text(all.take(i as int)).len(),
            deep(out@) == repainted(all.take(i as int), prefix as int, ranges@, bg),
        decreases l.spans@.len() - i,
    {
        proof {
            assert(all.take(i + 1).drop_last() =~= all.take(i as int));
            assert(all[i as int] == l.spans@[i as int].deep_view());
            lemma_spans_text_take(all, i + 1);
        }
        push_pieces(&mut out, &l.spans[i], pos, prefix, ranges, bg);
        let v: Vec<char> = chars_of(l.spans[i].content.as_str());
        pos += v.len() as u32;
        i += 1;
    }
    Line { spans: out, style: l.style }
}

proof fn lemma_painted_len(spans: Seq<SpanV>)
    ensures
        painted(spans).len() == spans_text(spans).len(),
    decreases spans.len(),
{
    if spans.len() > 0 {
        lemma_painted_len(spans.drop_last());
    }
}

proof fn lemma_painted_add(a: Seq<SpanV>, b: Seq<SpanV>)
    ensures
        painted(a + b) == painted(a) + painted(b),
    decreases b.len(),
{
    if b.len() > 0 {
        lemma_painted_add(a, b.drop_last());
        assert((a + b).drop_last() =~= a + b.drop_last());
        let tail = Seq::new(b.last().content.len(), |i: int| (b.last().content[i], b.last().style));
        assert(painted(a) + painted(b.drop_last()) + tail =~= painted(a) + (painted(b.drop_last())
            + tail));
    } else {
        assert(a + b =~= a);
        assert(painted(a) + painted(b) =~= painted(a));
    }
}

/// What emphasis makes of painted characters.
pub open spec fn repaint_chars(p: Seq<(char, Style)>, from: int, prefix: int, ranges: Seq<CharRange>, bg: Color) -> Seq<(char, Style)> {
    Seq::new(
        p.len(),
        |i: int| (p[i].0, emphasised_style(p[i].1, in_emphasis(from + i, prefix, ranges), bg)),
    )
}

proof fn lemma_pieces_painted(s: SpanV, start: int, cursor: int, prefix: int, ranges: Seq<CharRange>, bg: Color)
    requires
        0 <= cursor <= s.content.len(),
    ensures
        painted(pieces(s, start, cursor, prefix, ranges, bg)) == repaint_chars(
            Seq::new((s.content.len() - cursor) as nat, |i: int| (s.content[cursor + i], s.style)),
            start + cursor,
            prefix,
            ranges,
            bg,
        ),
    decreases s.content.len() - cursor,
{
    let want = repaint_chars(
        Seq::new((s.content.len() - cursor) as nat, |i: int| (s.content[cursor + i], s.style)),
        start + cursor,
        prefix,
        ranges,
        bg,
    );
    if cursor < s.content.len() {
        let hit = in_emphasis(start + cursor, prefix, ranges);
        let e = same_end(cursor + 1, s.content.len() as int, start, hit, prefix, ranges);
        lemma_same_end(cursor + 1, s.content.len() as int, start, hit, prefix, ranges);
        let head = span(s.content.subrange(cursor, e), emphasised_style(s.style, hit, bg));
        let rest = pieces(s, start, e, prefix, ranges, bg);
        lemma_pieces_painted(s, start, e, prefix, ranges, bg);
        lemma_painted_add(seq![head], rest);
        reveal_with_fuel(painted, 2);
        assert(painted(seq![head]) =~= Seq::new(
            head.content.len(),
            |i: int| (head.content[i], head.style),
        ));
        let got = painted(seq![head]) + painted(rest);
        assert forall|i: int| 0 <= i < want.len() implies got[i] == want[i] by {
            if i < e - cursor {
                assert(in_emphasis(start + (cursor + i), prefix, ranges) == hit);
            } else {
                assert(start + e + (i - (e - cursor)) == start + cursor + i);
            }
        }
        assert(got =~= want);
    } else {
        assert(painted(pieces(s, start, cursor, prefix, ranges, bg)) =~= want);
    }
}

/// Emphasis changes no character, and of the styles only the background of the
/// characters in its ranges.
pub proof fn law_repaint_touches_only_ranges(spans: Seq<SpanV>, prefix: int, ranges: Seq<CharRange>, bg: Color)
    ensures
        painted(repainted(spans, prefix, ranges, bg)) == repaint_chars(
            painted(spans),
            0,
            prefix,
            ranges,
            bg,
        ),
    decreases spans.len(),
{
    if spans.len() > 0 {
        let init = spans.drop_last();
        let s = spans.last();
        law_repaint_touches_only_ranges(init, prefix, ranges, bg);
        lemma_painted_len(init);
        let n = spans_text(init).len() as int;
        lemma_pieces_painted(s, n, 0, prefix, ranges, bg);
        lemma_painted_add(
            repainted(init, prefix, ranges, bg),
            pieces(s, n, 0, prefix, ranges, bg),
        );
        assert(painted(repainted(spans, prefix, ranges, bg)) =~= repaint_chars(
            painted(spans),
            0,
            prefix,
            ranges,
            bg,
        ));
    } else {
        assert(painted(repainted(spans, prefix, ranges, bg)) =~= repaint_chars(
            painted(spans),
            0,
            prefix,
            ranges,
            bg,
        ));
    }
}

// ---- lines ---------------------------------------------------------------------------------

/// Syntax runs as spans, on an optional background.
pub open spec fn paint_runs(runs: Seq<RunV>, bg: Option<Rgb>) -> Seq<SpanV> {
    Seq::new(
        runs.len(),
        |i: int|
            span(
                runs[i].text,
                Style {
                    fg: Some(rgb_color(runs[i].color)),
                    bg: match bg {
                        Some(c) => Some(rgb_color(c)),
                        None => None,
                    },
                    ..Style::plain()
                },
            ),
    )
}

fn push_paint(out: &mut Vec<Span>, runs: &Vec<Run>, bg: Option<Rgb>)
    ensures
        deep(final(out)@) == deep(old(out)@) + paint_runs(deep(runs@), bg),
{
    broadcast use group_deep;

    let ghost before = deep(out@);
    let ghost want = paint_runs(deep(runs@), bg);
    let mut i: usize = 0;
    assert(before + want.take(0) =~= before);
    while i < runs.len()
        invariant
            i <= runs@.len(),
            want == paint_runs(deep(runs@), bg),
            deep(out@) == before + want.take(i as int),
        decreases runs@.len() - i,
    {
        let mut style: Style = Style::new().fg(rgb(runs[i].color));
        if let Some(c) = bg {
            style = style.bg(rgb(c));
        }
        let s: Span = Span::styled(runs[i].text.clone(), style);
        assert(deep(runs@)[i as int] == runs@[i as int].deep_view());
        assert(s.deep_view() == want[i as int]);
        let ghost pre = deep(out@);
        out.push(s);
        assert(deep(out@) == pre.push(want[i as int]));
        assert(want.take(i + 1) =~= want.take(i as int).push(want[i as int]));
        assert(deep(out@) =~= before + want.take(i + 1));
        i += 1;
    }
}

/// The number in the gutter of a line.
pub open spec fn shown_no(l: CodeV) -> nat {
    let no = if l.kind == LineKind::Deletion {
        l.old_no
    } else {
        l.new_no
    };
    match no {
        Some(n) => n as nat,
        None => 0,
    }
}

pub open spec fn fg_style(c: Color) -> Style {
    Style { fg: Some(c), ..Style::plain() }
}

pub open spec fn bg_style(c: Color) -> Style {
    Style { bg: Some(c), ..Style::plain() }
}

/// A changed line before its emphasis: a bar, the number, and the content on
/// the tint of the change.
pub open spec fn change_spans(l: CodeV, bar: Color, tint: Rgb, p: Palette) -> Seq<SpanV> {
    seq![
        span("▌"@, Style { fg: Some(bar), bg: Some(rgb_color(tint)), ..Style::plain() }),
        span(pad_left(decimal(shown_no(l)), 4) + " "@, fg_style(rgb_color(p.gutter))),
    ] + paint_runs(l.runs, Some(tint))
}

pub open spec fn code_line(l: CodeV, p: Palette) -> LineV {
    match l.kind {
        LineKind::Context => line(
            seq![
                span(
                    " "@ + pad_left(decimal(shown_no(l)), 4) + " "@,
                    fg_style(rgb_color(p.gutter)),
                ),
            ] + paint_runs(l.runs, None),
            Style::plain(),
        ),
        LineKind::Deletion => change_line(l, Color::Red, p.del_bg, p.del_emph_bg, p),
        LineKind::Insertion => change_line(l, Color::Green, p.ins_bg, p.ins_emph_bg, p),
    }
}

pub open spec fn change_line(l: CodeV, bar: Color, tint: Rgb, strong: Rgb, p: Palette) -> LineV {
    let spans = change_spans(l, bar, tint, p);
    line(
        if l.emphasis.len() == 0 {
            spans
        } else {
            repainted(spans, GUTTER_CHARS as int, l.emphasis, rgb_color(strong))
        },
        bg_style(rgb_color(tint)),
    )
}

/// A row as it is shown, with tabs as `tabs` spaces each.
pub open spec fn row_line(r: RowV, p: Palette, tabs: nat) -> LineV {
    match r {
        RowV::Code(l) => untabbed_line(code_line(l, p), tabs),
        RowV::Fold(s) => line(
            seq![
                span(
                    "  ▸ ⋯ "@ + decimal(s.len()) + " unchanged lines — click to expand"@,
                    fg_style(rgb_color(p.fold_fg)),
                ),
            ],
            bg_style(rgb_color(p.fold_bg)),
        ),
    }
}

pub open spec fn text_of_rows(rows: Seq<RowV>, p: Palette, tabs: nat) -> Seq<LineV> {
    Seq::new(rows.len(), |i: int| row_line(rows[i], p, tabs))
}

/// Every code line of the rows short enough for 32-bit character positions.
pub open spec fn short_rows(rows: Seq<RowV>) -> bool {
    forall|i: int|
        0 <= i < rows.len() ==> match #[trigger] rows[i] {
            RowV::Code(l) => l.text().len() + GUTTER_ROOM <= u32::MAX,
            RowV::Fold(s) => short_lines(s),
        }
}

fn number_of(no: Option<u32>) -> (r: u64)
    ensures
        r == match no {
            Some(n) => n as int,
            None => 0,
        },
{
    match no {
        Some(n) => n as u64,
        None => 0,
    }
}

/// A number has no more digits than itself has decimal places.
proof fn lemma_decimal_len(n: nat)
    ensures
        n < 10 ==> decimal(n).len() == 1,
        n < 100 ==> decimal(n).len() <= 2,
        n < 1000 ==> decimal(n).len() <= 3,
        n < 10000 ==> decimal(n).len() <= 4,
        n < 100000 ==> decimal(n).len() <= 5,
        n < 1000000 ==> decimal(n).len() <= 6,
        n < 10000000 ==> decimal(n).len() <= 7,
        n < 100000000 ==> decimal(n).len() <= 8,
        n < 1000000000 ==> decimal(n).len() <= 9,
        n < 10000000000 ==> decimal(n).len() <= 10,
    decreases n,
{
    if n >= 10 {
        lemma_decimal_len(n / 10);
    }
}

proof fn lemma_paint_text(runs: Seq<RunV>, bg: Option<Rgb>)
    ensures
        spans_text(paint_runs(runs, bg)) == runs_text(runs),
    decreases runs.len(),
{
    if runs.len() > 0 {
        lemma_paint_text(runs.drop_last(), bg);
        assert(paint_runs(runs, bg).drop_last() =~= paint_runs(runs.drop_last(), bg));
    } else {
        assert(paint_runs(runs, bg) =~= Seq::<SpanV>::empty());
    }
}

pub(crate) proof fn lemma_spans_text_add(a: Seq<SpanV>, b: Seq<SpanV>)
    ensures
        spans_text(a + b) == spans_text(a) + spans_text(b),
    decreases b.len(),
{
    if b.len() > 0 {
        lemma_spans_text_add(a, b.drop_last());
        assert((a + b).drop_last() =~= a + b.drop_last());
        assert(spans_text(a) + spans_text(b.drop_last()) + b.last().content =~= spans_text(a) + (
        spans_text(b.drop_last()) + b.last().content));
    } else {
        assert(a + b =~= a);
        assert(spans_text(a) + spans_text(b) =~= spans_text(a));
    }
}


fn gutter_text(no: Option<u32>) -> (r: String)
    ensures
        r@ == pad_left(
            decimal(
                match no {
                    Some(n) => n as nat,
                    None => 0,
                },
            ),
            4,
        ) + " "@,
        r@.len() <= 11,
{
    let digits: String = decimal_of(number_of(no));
    proof {
        lemma_decimal_len(number_of_spec(no));
        reveal_strlit(" ");
    }
    concat2(padded_left(digits.as_str(), 4).as_str(), " ")
}

pub open spec fn number_of_spec(no: Option<u32>) -> nat {
    match no {
        Some(n) => n as nat,
        None => 0,
    }
}

fn paint_change(l: &CodeLine, no: Option<u32>, bar: Color, tint: Rgb, strong: Rgb, p: &Palette) -> (r: Line)
    requires
        l.deep_view().text().len() + GUTTER_ROOM <= u32::MAX,
        number_of_spec(no) == shown_no(l.deep_view()),
    ensures
        r.deep_view() == change_line(l.deep_view(), bar, tint, strong, *p),
{
    broadcast use group_deep;

    let mut spans: Vec<Span> = Vec::new();
    let bar_style: Style = Style::new().fg(bar).bg(rgb(tint));
    spans.push(Span::styled("▌".to_owned(), bar_style));
    spans.push(Span::styled(gutter_text(no), Style::new().fg(rgb(p.gutter))));
    let ghost head = deep(spans@);
    push_paint(&mut spans, &l.runs, Some(tint));
    let ghost lv = l.deep_view();
    let ghost want = change_spans(lv, bar, tint, *p);
    assert(deep(spans@) =~= want);
    let plain: Line = Line { spans, style: Style::new().bg(rgb(tint)) };
    if l.emphasis.len() == 0 {
        plain
    } else {
        proof {
            lemma_spans_text_add(head, paint_runs(lv.runs, Some(tint)));
            lemma_paint_text(lv.runs, Some(tint));
            reveal_with_fuel(spans_text, 3);
            reveal_strlit("▌");
            assert(head.drop_last().drop_last() =~= Seq::<SpanV>::empty());
            assert(spans_text(head).len() <= 12);
            assert(head + paint_runs(lv.runs, Some(tint)) =~= want);
        }
        repaint_emphasis(&plain, GUTTER_CHARS, &l.emphasis, strong)
    }
}

fn paint_line(l: &CodeLine, p: &Palette) -> (r: Line)
    requires
        l.deep_view().text().len() + GUTTER_ROOM <= u32::MAX,
    ensures
        r.deep_view() == code_line(l.deep_view(), *p),
{
    broadcast use group_deep;

    match l.kind {
        LineKind::Context => {
            let mut spans: Vec<Span> = Vec::new();
            let gutter: String = concat2(" ", gutter_text(l.new_no).as_str());
            assert(gutter@ =~= " "@ + pad_left(decimal(shown_no(l.deep_view())), 4) + " "@);
            spans.push(Span::styled(gutter, Style::new().fg(rgb(p.gutter))));
            push_paint(&mut spans, &l.runs, None);
            let r: Line = Line { spans, style: Style::new() };
            assert(r.deep_view().spans =~= code_line(l.deep_view(), *p).spans);
            r
        },
        LineKind::Deletion => paint_change(l, l.old_no, Color::Red, p.del_bg, p.del_emph_bg, p),
        LineKind::Insertion => paint_change(l, l.new_no, Color::Green, p.ins_bg, p.ins_emph_bg, p),
    }
}

fn paint_row(row: &Row, p: &Palette, tabs: usize) -> (r: Line)
    requires
        match row.deep_view() {
            RowV::Code(l) => l.text().len() + GUTTER_ROOM <= u32::MAX,
            RowV::Fold(s) => true,
        },
    ensures
        r.deep_view() == row_line(row.deep_view(), *p, tabs as nat),
{
    broadcast use group_deep;

    match row {
        Row::Code(l) => expand_line(paint_line(l, p), tabs),
        Row::Fold(hidden) => {
            let text: String = concat3(
                "  ▸ ⋯ ",
                decimal_of(hidden.len() as u64).as_str(),
                " unchanged lines — click to expand",
            );
            let mut spans: Vec<Span> = Vec::new();
            spans.push(Span::styled(text, Style::new().fg(rgb(p.fold_fg))));
            let r: Line = Line { spans, style: Style::new().bg(rgb(p.fold_bg)) };
            assert(r.deep_view().spans =~= row_line(row.deep_view(), *p, tabs as nat).spans);
            r
        },
    }
}

/// The positions `0, 1, .., n - 1`.
pub open spec fn identity(n: nat) -> Seq<usize> {
    Seq::new(n, |i: int| i as usize)
}

/// The rows as lines, and for each line the row it shows.
pub fn to_text(rows: &Vec<Row>, p: &Palette, tabs: usize) -> (r: (Vec<Line>, Vec<usize>))
    requires
        short_rows(deep(rows@)),
    ensures
        deep(r.0@) == text_of_rows(deep(rows@), *p, tabs as nat),
        r.1@ == identity(rows@.len()),
{
    broadcast use group_deep;

    let ghost all = deep(rows@);
    let ghost want = text_of_rows(all, *p, tabs as nat);
    let mut lines: Vec<Line> = Vec::new();
    let mut line_rows: Vec<usize> = Vec::new();
    let mut i: usize = 0;
    while i < rows.len()
        invariant
            i <= rows@.len(),
            all == deep(rows@),
            short_rows(all),
            want == text_of_rows(all, *p, tabs as nat),
            deep(lines@) == want.take(i as int),
            line_rows@ == identity(i as nat),
        decreases rows@.len() - i,
    {
        assert(all[i as int] == rows@[i as int].deep_view());
        lines.push(paint_row(&rows[i], p, tabs));
        line_rows.push(i);
        assert(want.take(i + 1) =~= want.take(i as int).push(want[i as int]));
        assert(line_rows@ =~= identity((i + 1) as nat));
        i += 1;
    }
    (lines, line_rows)
}

// ---- the document ----------------------------------------------------------------------------

/// A rendered diff. Folds can be opened in place.
#[derive(Debug)]
pub struct DiffDoc {
    pub rows: Vec<Row>,
    pub theme: Theme,
    pub default_fg: Rgb,
    /// How many spaces a tab is shown as.
    pub tab_width: usize,
    /// For each rendered line, the row it shows.
    pub line_rows: Vec<usize>,
    pub text: Vec<Line>,
    /// The first inserted line's number.
    pub first_change: Option<u32>,
    pub is_empty: bool,
    pub binary: bool,
}

/// The first line that shows a new-side number, or the number of rows.
pub open spec fn line_with_new(rows: Seq<RowV>, no: u32, from: int) -> int
    decreases rows.len() - from,
{
    if from < 0 || from >= rows.len() || (rows[from] is Code && rows[from]->Code_0.new_no == Some(no)) {
        from
    } else {
        line_with_new(rows, no, from + 1)
    }
}

/// Whether a line of this new-side number is among the lines.
pub open spec fn has_new(s: Seq<CodeV>, no: u32) -> bool {
    exists|i: int| 0 <= i < s.len() && (#[trigger] s[i]).new_no == Some(no)
}

/// The first fold that hides a new-side number, or the number of rows.
pub open spec fn fold_with_new(rows: Seq<RowV>, no: u32, from: int) -> int
    decreases rows.len() - from,
{
    if from < 0 || from >= rows.len() || (rows[from] is Fold && has_new(rows[from]->Fold_0, no)) {
        from
    } else {
        fold_with_new(rows, no, from + 1)
    }
}

/// The line that shows a new-side number, or the fold that hides it.
pub open spec fn place_of_new(rows: Seq<RowV>, no: u32) -> Option<int> {
    if line_with_new(rows, no, 0) < rows.len() {
        Some(line_with_new(rows, no, 0))
    } else if fold_with_new(rows, no, 0) < rows.len() {
        Some(fold_with_new(rows, no, 0))
    } else {
        None
    }
}

pub open spec fn marker(kind: LineKind) -> Seq<char> {
    match kind {
        LineKind::Deletion => "-"@,
        LineKind::Insertion => "+"@,
        LineKind::Context => " "@,
    }
}

/// The rows with the fold at `i` opened.
pub open spec fn opened(rows: Seq<RowV>, i: int) -> Seq<RowV> {
    rows.take(i) + crate::rows::as_rows(rows[i]->Fold_0) + rows.skip(i + 1)
}

impl DiffDoc {
    pub open spec fn model(self) -> Seq<RowV> {
        deep(self.rows@)
    }

    /// The text shows the rows, line by line.
    pub open spec fn wf(self) -> bool {
        &&& deep(self.text@) == text_of_rows(
            self.model(),
            palette(self.theme),
            self.tab_width as nat,
        )
        &&& self.line_rows@ == identity(self.rows@.len())
        &&& short_rows(self.model())
    }

    /// The numbers of a rendered line on both sides; none for a fold.
    pub fn numbers_of_line(&self, at: usize) -> (r: Option<(Option<u32>, Option<u32>)>)
        requires
            self.wf(),
        ensures
            r == if at < self.model().len() && self.model()[at as int] is Code {
                Some(
                    (self.model()[at as int]->Code_0.old_no, self.model()[at as int]->Code_0.new_no),
                )
            } else {
                None
            },
    {
        if at >= self.line_rows.len() {
            return None;
        }
        let row: usize = self.line_rows[at];
        assert(self.model()[at as int] == self.rows@[at as int].deep_view());
        match &self.rows[row] {
            Row::Code(l) => Some((l.old_no, l.new_no)),
            Row::Fold(_) => None,
        }
    }

    /// The line that shows a new-side number; the fold where it is hidden.
    pub fn line_for_new(&self, no: u32) -> (r: Option<usize>)
        requires
            self.wf(),
        ensures
            match r {
                Some(k) => place_of_new(self.model(), no) == Some(k as int) && k < self.model().len(),
                None => place_of_new(self.model(), no) is None,
            },
    {
        let ghost m = self.model();
        let n: usize = self.rows.len();
        let mut i: usize = 0;
        while i < n
            invariant
                i <= n == self.rows@.len(),
                m == self.model(),
                line_with_new(m, no, 0) == line_with_new(m, no, i as int),
            decreases n - i,
        {
            assert(m[i as int] == self.rows@[i as int].deep_view());
            if let Row::Code(l) = &self.rows[i] {
                if l.new_no == Some(no) {
                    return Some(i);
                }
            }
            i += 1;
        }
        let mut i: usize = 0;
        while i < n
            invariant
                i <= n == self.rows@.len(),
                m == self.model(),
                line_with_new(m, no, 0) == n,
                fold_with_new(m, no, 0) == fold_with_new(m, no, i as int),
            decreases n - i,
        {
            assert(m[i as int] == self.rows@[i as int].deep_view());
            if let Row::Fold(hidden) = &self.rows[i] {
                let ghost hs = deep(hidden@);
                let mut k: usize = 0;
                while k < hidden.len()
                    invariant
                        k <= hidden@.len(),
                        hs == deep(hidden@),
                        forall|j: int| 0 <= j < k ==> (#[trigger] hs[j]).new_no != Some(no),
                        m == self.model(),
                        i < n == self.rows@.len(),
                        m[i as int] == RowV::Fold(hs),
                        line_with_new(m, no, 0) == n,
                        fold_with_new(m, no, 0) == fold_with_new(m, no, i as int),
                    decreases hidden@.len() - k,
                {
                    assert(hs[k as int] == hidden@[k as int].deep_view());
                    if hidden[k].new_no == Some(no) {
                        assert(has_new(hs, no));
                        return Some(i);
                    }
                    k += 1;
                }
            }
            i += 1;
        }
        None
    }

    /// A rendered line as it stands in the diff: marker and content. Empty for
    /// a fold.
    pub fn marker_text_of_line(&self, at: usize) -> (r: Option<String>)
        requires
            self.wf(),
        ensures
            r.deep_view() == if at < self.model().len() {
                match self.model()[at as int] {
                    RowV::Code(l) => Some(marker(l.kind) + l.text()),
                    RowV::Fold(_) => Some(Seq::empty()),
                }
            } else {
                None
            },
    {
        if at >= self.line_rows.len() {
            return None;
        }
        let row: usize = self.line_rows[at];
        assert(self.model()[at as int] == self.rows@[at as int].deep_view());
        match &self.rows[row] {
            Row::Code(l) => {
                let mark: &str = match l.kind {
                    LineKind::Deletion => "-",
                    LineKind::Insertion => "+",
                    LineKind::Context => " ",
                };
                Some(concat2(mark, l.text().as_str()))
            },
            Row::Fold(_) => Some(String::new()),
        }
    }

    /// Open the fold at a rendered line; true if that line was a fold.
    pub fn unfold_at(&mut self, at: usize) -> (r: bool)
        requires
            old(self).wf(),
        ensures
            final(self).wf(),
            r == (at < old(self).model().len() && old(self).model()[at as int] is Fold),
            final(self).model() == if r {
                opened(old(self).model(), at as int)
            } else {
                old(self).model()
            },
            final(self).theme == old(self).theme,
            final(self).default_fg == old(self).default_fg,
            final(self).tab_width == old(self).tab_width,
            final(self).first_change == old(self).first_change,
            final(self).is_empty == old(self).is_empty,
            final(self).binary == old(self).binary,
            !r ==> *final(self) == *old(self),
    {
        broadcast use group_deep;

        let ghost m = self.model();
        if at >= self.line_rows.len() {
            return false;
        }
        let row: usize = self.line_rows[at];
        assert(m[at as int] == self.rows@[at as int].deep_view());
        let fold: bool = match &self.rows[row] {
            Row::Fold(_) => true,
            Row::Code(_) => false,
        };
        if !fold {
            return false;
        }
        let ghost before = self.rows@;
        let taken: Row = self.rows.remove(row);
        let mut hidden: Vec<CodeLine> = match taken {
            Row::Fold(v) => v,
            Row::Code(_) => Vec::new(),
        };
        let ghost hs = deep(hidden@);
        assert(m[at as int] == RowV::Fold(hs));
        assert(deep(self.rows@) =~= m.take(row as int) + m.skip(row + 1));
        let ghost tail = m.skip(row + 1);
        assert(crate::rows::as_rows(hs.skip(hs.len() as int)) + tail =~= tail);
        while hidden.len() > 0
            invariant
                row <= self.rows@.len(),
                row <= m.len(),
                hidden@.len() <= hs.len(),
                deep(hidden@) == hs.take(hidden@.len() as int),
                deep(self.rows@) == m.take(row as int) + (crate::rows::as_rows(
                    hs.skip(hidden@.len() as int),
                ) + tail),
                self.theme == old(self).theme,
                self.default_fg == old(self).default_fg,
                self.tab_width == old(self).tab_width,
                self.first_change == old(self).first_change,
                self.is_empty == old(self).is_empty,
                self.binary == old(self).binary,
            decreases hidden@.len(),
        {
            let ghost pre = hidden@;
            let ghost rows0 = self.rows@;
            match hidden.pop() {
                Some(l) => {
                    let ghost k = (pre.len() - 1) as int;
                    assert(deep(pre)[k] == l.deep_view());
                    assert(hs[k] == l.deep_view());
                    self.rows.insert(row, Row::Code(l));
                    proof {
                        assert(deep(hidden@) =~= hs.take(k));
                        let rest = crate::rows::as_rows(hs.skip(pre.len() as int)) + tail;
                        assert(deep(self.rows@) =~= deep(rows0).insert(row as int, RowV::Code(hs[k])));
                        assert(deep(rows0) == m.take(row as int) + rest);
                        assert(deep(rows0).insert(row as int, RowV::Code(hs[k])) =~= m.take(row as int) + (
                        seq![RowV::Code(hs[k])] + rest));
                        assert(crate::rows::as_rows(hs.skip(k)) =~= seq![RowV::Code(hs[k])]
                            + crate::rows::as_rows(hs.skip(k + 1)));
                        assert(seq![RowV::Code(hs[k])] + rest =~= crate::rows::as_rows(hs.skip(k)) + tail);
                    }
                },
                None => {},
            }
        }
        proof {
            assert(hs.skip(0) =~= hs);
            assert(deep(self.rows@) =~= opened(m, at as int));
            lemma_opened_short(m, at as int);
        }
        let p: Palette = Palette::new(self.theme);
        let painted_rows: (Vec<Line>, Vec<usize>) = to_text(&self.rows, &p, self.tab_width);
        self.text = painted_rows.0;
        self.line_rows = painted_rows.1;
        true
    }
}

proof fn lemma_opened_short(m: Seq<RowV>, i: int)
    requires
        short_rows(m),
        0 <= i < m.len(),
        m[i] is Fold,
    ensures
        short_rows(opened(m, i)),
{
    let o = opened(m, i);
    let s = m[i]->Fold_0;
    assert(short_lines(s));
    assert forall|k: int| 0 <= k < o.len() implies match #[trigger] o[k] {
        RowV::Code(l) => l.text().len() + GUTTER_ROOM <= u32::MAX,
        RowV::Fold(t) => short_lines(t),
    } by {
        if k < i {
            assert(o[k] == m[k]);
        } else if k < i + s.len() {
            assert(o[k] == RowV::Code(s[k - i]));
        } else {
            assert(o[k] == m[k - s.len() + 1]);
        }
    }
}

/// Opening a fold shows its lines in place, and changes no line.
pub proof fn law_opening_a_fold_shows_its_lines(rows: Seq<RowV>, i: int)
    requires
        0 <= i < rows.len(),
        rows[i] is Fold,
    ensures
        unfolded(opened(rows, i)) == unfolded(rows),
        opened(rows, i).len() == rows.len() - 1 + rows[i]->Fold_0.len(),
{
    let s = rows[i]->Fold_0;
    lemma_unfolded_add(rows.take(i), seq![rows[i]] + rows.skip(i + 1));
    assert(rows =~= rows.take(i) + (seq![rows[i]] + rows.skip(i + 1)));
    lemma_unfolded_add(seq![rows[i]], rows.skip(i + 1));
    lemma_unfolded_add(rows.take(i), crate::rows::as_rows(s) + rows.skip(i + 1));
    lemma_unfolded_add(crate::rows::as_rows(s), rows.skip(i + 1));
    lemma_unfolded_code(s);
    reveal_with_fuel(unfolded, 2);
    assert(seq![rows[i]].skip(1) =~= Seq::<RowV>::empty());
    assert(unfolded(seq![rows[i]]) =~= s);
    assert(opened(rows, i) =~= rows.take(i) + (crate::rows::as_rows(s) + rows.skip(i + 1)));
}

proof fn lemma_unfolded_code(s: Seq<CodeV>)
    ensures
        unfolded(crate::rows::as_rows(s)) == s,
    decreases s.len(),
{
    let r = crate::rows::as_rows(s);
    if s.len() > 0 {
        lemma_unfolded_code(s.skip(1));
        assert(r.skip(1) =~= crate::rows::as_rows(s.skip(1)));
        assert(s =~= seq![s[0]] + s.skip(1));
    } else {
        assert(unfolded(r) =~= s);
    }
}

proof fn lemma_unfolded_add(a: Seq<RowV>, b: Seq<RowV>)
    ensures
        unfolded(a + b) == unfolded(a) + unfolded(b),
    decreases a.len(),
{
    if a.len() > 0 {
        lemma_unfolded_add(a.skip(1), b);
        assert((a + b).skip(1) =~= a.skip(1) + b);
        assert(lines_in(a[0]) + (unfolded(a.skip(1)) + unfolded(b)) =~= lines_in(a[0]) + unfolded(
            a.skip(1),
        ) + unfolded(b));
    } else {
        assert(a + b =~= b);
        assert(unfolded(a) + unfolded(b) =~= unfolded(b));
    }
}

// ---- building ----------------------------------------------------------------------------------

/// Every highlighted line short enough for 32-bit character positions.
pub open spec fn short_runs(lines: Seq<Seq<RunV>>) -> bool {
    forall|i: int| 0 <= i < lines.len() ==> runs_text(#[trigger] lines[i]).len() + GUTTER_ROOM <= u32::MAX
}

proof fn lemma_code_short(c: Seq<crate::rows::LineChange>, old_lines: Seq<Seq<RunV>>, new_lines: Seq<Seq<RunV>>)
    requires
        short_runs(old_lines),
        short_runs(new_lines),
    ensures
        short_lines(code_rows(c, old_lines, new_lines)),
{
    let rows = code_rows(c, old_lines, new_lines);
    assert forall|i: int| 0 <= i < rows.len() implies (#[trigger] rows[i]).text().len() + GUTTER_ROOM
        <= u32::MAX by {
        match c[i] {
            crate::rows::LineChange::Equal { old, new } => {
                if (new as int) < new_lines.len() {
                    assert(runs_text(new_lines[new as int]).len() + GUTTER_ROOM <= u32::MAX);
                }
            },
            crate::rows::LineChange::Delete { old } => {
                if (old as int) < old_lines.len() {
                    assert(runs_text(old_lines[old as int]).len() + GUTTER_ROOM <= u32::MAX);
                }
            },
            crate::rows::LineChange::Insert { new } => {
                if (new as int) < new_lines.len() {
                    assert(runs_text(new_lines[new as int]).len() + GUTTER_ROOM <= u32::MAX);
                }
            },
        }
    }
}

proof fn lemma_same_bare_short(a: Seq<CodeV>, b: Seq<CodeV>)
    requires
        bare(a) == bare(b),
        short_lines(a),
    ensures
        short_lines(b),
{
    assert(bare(a).len() == a.len());
    assert(bare(b).len() == b.len());
    assert forall|i: int| 0 <= i < b.len() implies (#[trigger] b[i]).text().len() + GUTTER_ROOM
        <= u32::MAX by {
        assert(bare(a)[i] == bare(b)[i]);
        assert(a[i].text().len() + GUTTER_ROOM <= u32::MAX);
        assert(a[i].runs == bare(a)[i].runs);
        assert(b[i].runs == bare(b)[i].runs);
    }
}

proof fn lemma_collapsed_short(rows: Seq<CodeV>, margin: int, i: int)
    requires
        short_lines(rows),
        0 <= i <= rows.len(),
    ensures
        short_rows(collapsed(rows, margin, i)),
    decreases rows.len() - i,
{
    let c = collapsed(rows, margin, i);
    if i < rows.len() {
        let e = if crate::rows::near_change(rows, margin, i) {
            i + 1
        } else {
            crate::rows::far_end(rows, margin, i)
        };
        crate::rows::lemma_far_end(rows, margin, i);
        crate::rows::lemma_far_end(rows, margin, i + 1);
        lemma_collapsed_short(rows, margin, e);
        let rest = collapsed(rows, margin, e);
        assert(rows[i].text().len() + GUTTER_ROOM <= u32::MAX);
        assert forall|k: int| 0 <= k < c.len() implies match #[trigger] c[k] {
            RowV::Code(l) => l.text().len() + GUTTER_ROOM <= u32::MAX,
            RowV::Fold(s) => short_lines(s),
        } by {
            if k > 0 {
                assert(c[k] == rest[k - 1]);
            } else {
                let s = rows.subrange(i, e);
                assert forall|j: int| 0 <= j < s.len() implies (#[trigger] s[j]).text().len()
                    + GUTTER_ROOM <= u32::MAX by {
                    assert(s[j] == rows[i + j]);
                }
            }
        }
    }
}

/// The diff of two texts, given their highlighted lines. A text with a NUL
/// character is binary and has no diff.
pub fn build(old: &str, new: &str, old_lines: &Vec<Vec<Run>>, new_lines: &Vec<Vec<Run>>, theme: Theme, default_fg: Rgb, context_lines: usize, tab_width: usize) -> (r: DiffDoc)
    requires
        old@.len() <= u32::MAX,
        new@.len() <= u32::MAX,
        short_runs(run_lines(old_lines@)),
        short_runs(run_lines(new_lines@)),
    ensures
        r.wf(),
        r.theme == theme,
        r.default_fg == default_fg,
        r.tab_width == tab_width,
        r.binary == (old@.contains('\0') || new@.contains('\0')),
        r.binary ==> r.model().len() == 0 && r.first_change is None && !r.is_empty,
        !r.binary ==> {
            let rows = code_rows(
                line_diff(old@, new@),
                run_lines(old_lines@),
                run_lines(new_lines@),
            );
            &&& r.model() == collapsed(emphasised(rows, 0), context_lines as int, 0)
            &&& r.first_change == first_inserted(rows)
            &&& compares(line_diff(old@, new@), old@, new@)
            &&& r.is_empty == (old@ == new@)
        },
{
    broadcast use group_deep;

    if has_char(old, '\0') || has_char(new, '\0') {
        let doc: DiffDoc = DiffDoc {
            rows: Vec::new(),
            theme,
            default_fg,
            tab_width,
            line_rows: Vec::new(),
            text: Vec::new(),
            first_change: None,
            is_empty: false,
            binary: true,
        };
        assert(deep(doc.text@) =~= text_of_rows(doc.model(), palette(theme), tab_width as nat));
        assert(doc.line_rows@ =~= identity(0));
        return doc;
    }
    let mut lines: Vec<CodeLine> = compare(old, new, old_lines, new_lines);
    let ghost plain = deep(lines@);
    proof {
        lemma_code_short(line_diff(old@, new@), run_lines(old_lines@), run_lines(new_lines@));
    }
    let changed: bool = has_change(&lines);
    let first_change: Option<u32> = first_inserted_of(&lines);
    compute_emphasis(&mut lines);
    proof {
        law_emphasis_changes_nothing_else(plain, 0);
        lemma_same_bare_short(plain, deep(lines@));
        lemma_collapsed_short(deep(lines@), context_lines as int, 0);
    }
    let rows: Vec<Row> = collapse_context(&lines, context_lines);
    let p: Palette = Palette::new(theme);
    let painted_rows: (Vec<Line>, Vec<usize>) = to_text(&rows, &p, tab_width);
    DiffDoc {
        rows,
        theme,
        default_fg,
        tab_width,
        line_rows: painted_rows.1,
        text: painted_rows.0,
        first_change,
        is_empty: !changed,
        binary: false,
    }
}

} // verus!
