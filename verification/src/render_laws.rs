//! What a rendered diff shows.

use vstd::prelude::*;

use crate::config::Theme;
use crate::render::{
    change_spans, code_line, in_emphasis, law_repaint_touches_only_ranges, paint_runs, palette,
    repainted, row_line, Palette,
};
use crate::rows::{
    bare, code_rows, collapsed, consecutive, emphasised, far_end, first_inserted,
    law_emphasis_changes_nothing_else, law_folding_loses_nothing, lemma_far_end, near_change,
    new_count, old_count, runs_at, runs_text, unfolded, CodeV, LineChange, LineKind, RowV, RunV,
    GUTTER_CHARS,
};
use crate::style::{painted, rgb_color, span, spans_text, Color, SpanV, Style};
use crate::tabs::{law_tabs_are_gone, spaces, untabbed, untabbed_spans};
use crate::text::{decimal, pad_left};
use crate::text_laws::law_a_number_reads_back;

verus! {

// ---- texts of spans -------------------------------------------------------------------

proof fn lemma_text_add(a: Seq<SpanV>, b: Seq<SpanV>)
    ensures
        spans_text(a + b) == spans_text(a) + spans_text(b),
    decreases b.len(),
{
    if b.len() > 0 {
        lemma_text_add(a, b.drop_last());
        assert((a + b).drop_last() =~= a + b.drop_last());
        assert(spans_text(a + b) =~= spans_text(a) + spans_text(b));
    } else {
        assert(a + b =~= a);
        assert(spans_text(a) + spans_text(b) =~= spans_text(a));
    }
}

proof fn lemma_text_of_runs(runs: Seq<RunV>, bg: Option<crate::style::Rgb>)
    ensures
        spans_text(paint_runs(runs, bg)) == runs_text(runs),
    decreases runs.len(),
{
    if runs.len() > 0 {
        lemma_text_of_runs(runs.drop_last(), bg);
        assert(paint_runs(runs, bg).drop_last() =~= paint_runs(runs.drop_last(), bg));
    }
}

proof fn lemma_text_is_painted(spans: Seq<SpanV>)
    ensures
        painted(spans).len() == spans_text(spans).len(),
        forall|i: int| 0 <= i < spans_text(spans).len() ==> (#[trigger] spans_text(spans)[i]) == painted(
            spans,
        )[i].0,
    decreases spans.len(),
{
    if spans.len() > 0 {
        lemma_text_is_painted(spans.drop_last());
    }
}

proof fn lemma_untabbed_add(a: Seq<char>, b: Seq<char>, width: nat)
    ensures
        untabbed(a + b, width) == untabbed(a, width) + untabbed(b, width),
    decreases b.len(),
{
    if b.len() > 0 {
        lemma_untabbed_add(a, b.drop_last(), width);
        assert((a + b).drop_last() =~= a + b.drop_last());
        assert(untabbed(a + b, width) =~= untabbed(a, width) + untabbed(b, width));
    } else {
        assert(a + b =~= a);
        assert(untabbed(a, width) + untabbed(b, width) =~= untabbed(a, width));
    }
}

proof fn lemma_untabbed_text(spans: Seq<SpanV>, width: nat)
    ensures
        spans_text(untabbed_spans(spans, width)) == untabbed(spans_text(spans), width),
    decreases spans.len(),
{
    if spans.len() > 0 {
        let init = spans.drop_last();
        lemma_untabbed_text(init, width);
        lemma_untabbed_add(spans_text(init), spans.last().content, width);
        assert(untabbed_spans(spans, width).drop_last() =~= untabbed_spans(init, width));
    }
}

proof fn lemma_repainted_text(spans: Seq<SpanV>, prefix: int, ranges: Seq<crate::emphasis::CharRange>, bg: Color)
    ensures
        spans_text(repainted(spans, prefix, ranges, bg)) == spans_text(spans),
{
    let r = repainted(spans, prefix, ranges, bg);
    law_repaint_touches_only_ranges(spans, prefix, ranges, bg);
    lemma_text_is_painted(spans);
    lemma_text_is_painted(r);
    assert(spans_text(r) =~= spans_text(spans));
}

/// A tab is shown as so many spaces, and any other character as itself, each by
/// itself.
pub proof fn law_a_tab_is_spaces(a: Seq<char>, b: Seq<char>, width: nat)
    ensures
        untabbed(a + seq!['\t'] + b, width) == untabbed(a, width) + Seq::new(width, |i: int| ' ')
            + untabbed(b, width),
        untabbed(a + b, width) == untabbed(a, width) + untabbed(b, width),
{
    lemma_untabbed_add(a, b, width);
    lemma_untabbed_add(a + seq!['\t'], b, width);
    assert((a + seq!['\t']).drop_last() =~= a);
    assert(spaces(width) =~= Seq::new(width, |i: int| ' '));
}

// ---- the gutter -----------------------------------------------------------------------

/// The gutter of an unchanged or inserted line spells its number in the new text,
/// and that of a deleted line its number in the old one, right-aligned. A change
/// has a bar before it. Behind the gutter stands the line, with its tabs as spaces.
pub proof fn law_the_gutter_spells_the_number(l: CodeV, p: Palette, tabs: nat, n: u32)
    requires
        l.kind == LineKind::Deletion ==> l.old_no == Some(n),
        l.kind != LineKind::Deletion ==> l.new_no == Some(n),
    ensures
        spans_text(row_line(RowV::Code(l), p, tabs).spans) == seq![
            if l.kind == LineKind::Context {
                ' '
            } else {
                '▌'
            },
        ] + pad_left(decimal(n as nat), 4).push(' ') + untabbed(runs_text(l.runs), tabs),
{
    reveal_strlit(" ");
    reveal_strlit("▌");
    assert(" "@ =~= seq![' ']);
    assert("▌"@ =~= seq!['▌']);
    let digits = pad_left(decimal(n as nat), 4);
    let mark = if l.kind == LineKind::Context {
        ' '
    } else {
        '▌'
    };
    let gutter = seq![mark] + digits.push(' ');
    let spans = code_line(l, p).spans;
    reveal_with_fuel(spans_text, 3);
    if l.kind == LineKind::Context {
        let head = seq![span(" "@ + digits + " "@, crate::render::fg_style(rgb_color(p.gutter)))];
        lemma_text_add(head, paint_runs(l.runs, None));
        lemma_text_of_runs(l.runs, None);
        assert(head.drop_last() =~= Seq::<SpanV>::empty());
        assert(spans_text(head) =~= gutter);
        assert(spans == head + paint_runs(l.runs, None));
    } else {
        let (bar, tint, strong) = if l.kind == LineKind::Deletion {
            (Color::Red, p.del_bg, p.del_emph_bg)
        } else {
            (Color::Green, p.ins_bg, p.ins_emph_bg)
        };
        let flat = change_spans(l, bar, tint, p);
        let head = seq![flat[0], flat[1]];
        assert(flat =~= head + paint_runs(l.runs, Some(tint)));
        lemma_text_add(head, paint_runs(l.runs, Some(tint)));
        lemma_text_of_runs(l.runs, Some(tint));
        assert(head.drop_last() =~= seq![flat[0]]);
        assert(seq![flat[0]].drop_last() =~= Seq::<SpanV>::empty());
        assert(spans_text(head) =~= gutter);
        lemma_repainted_text(flat, GUTTER_CHARS as int, l.emphasis, rgb_color(strong));
    }
    assert(spans_text(spans) == gutter + runs_text(l.runs));
    lemma_untabbed_text(spans, tabs);
    lemma_untabbed_add(gutter, runs_text(l.runs), tabs);
    law_tabs_are_gone(gutter, tabs);
    law_a_number_reads_back(n as nat);
    assert(!gutter.contains('\t')) by {
        if gutter.contains('\t') {
            let k = gutter.index_of('\t');
            let d = decimal(n as nat);
            let pad = digits.len() - d.len();
            assert(k > 0 && k <= digits.len());
            assert(digits[k - 1] == '\t');
            if k - 1 >= pad {
                assert(digits[k - 1] == d[k - 1 - pad]);
                assert(crate::git_parse::is_digit(d[k - 1 - pad]));
            }
        }
    }
}

/// How many of these lines are on the new side.
pub open spec fn on_new_side(rows: Seq<CodeV>) -> int
    decreases rows.len(),
{
    if rows.len() == 0 {
        0
    } else {
        on_new_side(rows.drop_last()) + if rows.last().kind == LineKind::Deletion {
            0int
        } else {
            1
        }
    }
}

/// How many of these lines are on the old side.
pub open spec fn on_old_side(rows: Seq<CodeV>) -> int
    decreases rows.len(),
{
    if rows.len() == 0 {
        0
    } else {
        on_old_side(rows.drop_last()) + if rows.last().kind == LineKind::Insertion {
            0int
        } else {
            1
        }
    }
}

proof fn lemma_sides(c: Seq<LineChange>, old_lines: Seq<Seq<RunV>>, new_lines: Seq<Seq<RunV>>)
    ensures
        on_new_side(code_rows(c, old_lines, new_lines)) == new_count(c),
        on_old_side(code_rows(c, old_lines, new_lines)) == old_count(c),
    decreases c.len(),
{
    let rows = code_rows(c, old_lines, new_lines);
    if c.len() > 0 {
        lemma_sides(c.drop_last(), old_lines, new_lines);
        assert(rows.drop_last() =~= code_rows(c.drop_last(), old_lines, new_lines));
    }
}

proof fn lemma_counts_grow(c: Seq<LineChange>, k: int)
    requires
        0 <= k <= c.len(),
    ensures
        old_count(c.take(k)) <= old_count(c),
        new_count(c.take(k)) <= new_count(c),
        k < c.len() && !(c[k] is Delete) ==> new_count(c.take(k)) < new_count(c),
        k < c.len() && !(c[k] is Insert) ==> old_count(c.take(k)) < old_count(c),
    decreases c.len() - k,
{
    if k < c.len() {
        lemma_counts_grow(c, k + 1);
        assert(c.take(k + 1).drop_last() =~= c.take(k));
        assert(c.take(k + 1).last() == c[k]);
    } else {
        assert(c.take(k) =~= c);
    }
}

proof fn lemma_place(c: Seq<LineChange>, k: int)
    requires
        consecutive(c),
        0 <= k < c.len(),
    ensures
        match c[k] {
            LineChange::Equal { old, new } => old == old_count(c.take(k)) && new == new_count(c.take(k)),
            LineChange::Delete { old } => old == old_count(c.take(k)),
            LineChange::Insert { new } => new == new_count(c.take(k)),
        },
    decreases c.len(),
{
    if k < c.len() - 1 {
        lemma_place(c.drop_last(), k);
        assert(c.drop_last().take(k) =~= c.take(k));
    } else {
        assert(c.take(k) =~= c.drop_last());
    }
}

proof fn lemma_bare_sides(a: Seq<CodeV>, b: Seq<CodeV>)
    requires
        bare(a) == bare(b),
    ensures
        a.len() == b.len(),
        on_new_side(a) == on_new_side(b),
        on_old_side(a) == on_old_side(b),
    decreases a.len(),
{
    assert(bare(a).len() == a.len() && bare(b).len() == b.len());
    if a.len() > 0 {
        let n = a.len() - 1;
        assert(bare(a)[n] == bare(b)[n]);
        assert(bare(a.drop_last()) =~= bare(a).drop_last());
        assert(bare(b.drop_last()) =~= bare(b).drop_last());
        lemma_bare_sides(a.drop_last(), b.drop_last());
    }
}

/// Down the diff of two texts, folded lines counted, the lines that are not
/// deletions are the lines of the new text: numbered one, two, three, and so on,
/// and each with its text. Those that are not insertions are numbered through the
/// old text, and the deletions have their text from there.
pub proof fn law_lines_are_numbered_through(c: Seq<LineChange>, old_lines: Seq<Seq<RunV>>, new_lines: Seq<Seq<RunV>>, margin: int, k: int)
    requires
        consecutive(c),
        old_count(c) <= u32::MAX,
        new_count(c) <= u32::MAX,
        ({
            let shown = unfolded(
                collapsed(emphasised(code_rows(c, old_lines, new_lines), 0), margin, 0),
            );
            0 <= k < shown.len()
        }),
    ensures
        ({
            let shown = unfolded(
                collapsed(emphasised(code_rows(c, old_lines, new_lines), 0), margin, 0),
            );
            let (o, n) = (on_old_side(shown.take(k)), on_new_side(shown.take(k)));
            let l = shown[k];
            &&& shown.len() == c.len()
            &&& l.kind == LineKind::Context <==> c[k] is Equal
            &&& l.kind == LineKind::Deletion <==> c[k] is Delete
            &&& l.kind == LineKind::Insertion <==> c[k] is Insert
            &&& l.kind != LineKind::Deletion ==> l.new_no == Some((n + 1) as u32) && 0 <= n < u32::MAX
                && l.runs == runs_at(new_lines, n)
            &&& l.kind == LineKind::Deletion ==> l.new_no is None && l.runs == runs_at(old_lines, o)
            &&& l.kind != LineKind::Insertion ==> l.old_no == Some((o + 1) as u32) && 0 <= o < u32::MAX
            &&& l.kind == LineKind::Insertion ==> l.old_no is None
        }),
{
    let plain = code_rows(c, old_lines, new_lines);
    let rows = emphasised(plain, 0);
    law_emphasis_changes_nothing_else(plain, 0);
    law_folding_loses_nothing(rows, margin, 0);
    let shown = unfolded(collapsed(rows, margin, 0));
    assert(shown =~= rows);
    assert(bare(plain).len() == plain.len() && bare(rows).len() == rows.len());
    assert(bare(rows)[k] == bare(plain)[k]);
    assert(bare(rows.take(k)) =~= bare(rows).take(k));
    assert(bare(plain.take(k)) =~= bare(plain).take(k));
    lemma_bare_sides(rows.take(k), plain.take(k));
    assert(plain.take(k) =~= code_rows(c.take(k), old_lines, new_lines));
    lemma_sides(c.take(k), old_lines, new_lines);
    lemma_place(c, k);
    lemma_counts_grow(c, k);
}

/// The first change that an editor jumps to is the first inserted line: none
/// stands before it, and there is none only where nothing was inserted.
pub proof fn law_the_first_insertion_is_jumped_to(rows: Seq<CodeV>, k: int)
    requires
        0 <= k < rows.len(),
        rows[k].kind == LineKind::Insertion,
        forall|j: int| 0 <= j < k ==> (#[trigger] rows[j]).kind != LineKind::Insertion,
    ensures
        first_inserted(rows) == rows[k].new_no,
    decreases k,
{
    if k > 0 {
        assert(rows[0].kind != LineKind::Insertion);
        let rest = rows.skip(1);
        assert forall|j: int| 0 <= j < k - 1 implies (#[trigger] rest[j]).kind != LineKind::Insertion by {
            assert(rest[j] == rows[j + 1]);
        }
        law_the_first_insertion_is_jumped_to(rest, k - 1);
    }
}

// ---- colours --------------------------------------------------------------------------

/// Inserted lines are tinted green and deleted ones red, in either theme, and
/// changed words more strongly than the rest of their line.
pub proof fn law_insertions_are_green_and_deletions_red(theme: Theme)
    ensures
        ({
            let p = palette(theme);
            &&& p.ins_bg.1 > p.ins_bg.0 && p.ins_bg.1 > p.ins_bg.2
            &&& p.ins_emph_bg.1 > p.ins_emph_bg.0 && p.ins_emph_bg.1 > p.ins_emph_bg.2
            &&& p.del_bg.0 > p.del_bg.1 && p.del_bg.0 > p.del_bg.2
            &&& p.del_emph_bg.0 > p.del_emph_bg.1 && p.del_emph_bg.0 > p.del_emph_bg.2
            &&& p.ins_emph_bg.1 - p.ins_emph_bg.0 > p.ins_bg.1 - p.ins_bg.0
            &&& p.del_emph_bg.0 - p.del_emph_bg.1 > p.del_bg.0 - p.del_bg.1
        }),
{
}

/// The bar of an inserted line is green on its tint and that of a deleted line is
/// red; the whole row is tinted; an unchanged line has neither bar nor tint.
pub proof fn law_changes_are_marked(l: CodeV, p: Palette)
    ensures
        l.kind == LineKind::Insertion ==> {
            &&& painted(code_line(l, p).spans).len() > 0
            &&& painted(code_line(l, p).spans)[0] == (
                '▌',
                Style { fg: Some(Color::Green), bg: Some(rgb_color(p.ins_bg)), ..Style::plain() },
            )
            &&& code_line(l, p).style == Style { bg: Some(rgb_color(p.ins_bg)), ..Style::plain() }
        },
        l.kind == LineKind::Deletion ==> {
            &&& painted(code_line(l, p).spans).len() > 0
            &&& painted(code_line(l, p).spans)[0] == (
                '▌',
                Style { fg: Some(Color::Red), bg: Some(rgb_color(p.del_bg)), ..Style::plain() },
            )
            &&& code_line(l, p).style == Style { bg: Some(rgb_color(p.del_bg)), ..Style::plain() }
        },
        l.kind == LineKind::Context ==> code_line(l, p).style == Style::plain(),
{
    if l.kind != LineKind::Context {
        let (bar, tint, strong) = if l.kind == LineKind::Deletion {
            (Color::Red, p.del_bg, p.del_emph_bg)
        } else {
            (Color::Green, p.ins_bg, p.ins_emph_bg)
        };
        let flat = change_spans(l, bar, tint, p);
        reveal_strlit("▌");
        assert(flat[0].content == "▌"@);
        lemma_first_painted(flat);
        law_repaint_touches_only_ranges(flat, GUTTER_CHARS as int, l.emphasis, rgb_color(strong));
    }
}

proof fn lemma_first_painted(spans: Seq<SpanV>)
    requires
        spans.len() > 0,
        spans[0].content.len() > 0,
    ensures
        painted(spans).len() > 0,
        painted(spans)[0] == (spans[0].content[0], spans[0].style),
    decreases spans.len(),
{
    if spans.len() == 1 {
        assert(spans.drop_last() =~= Seq::<SpanV>::empty());
        reveal_with_fuel(painted, 2);
    } else {
        lemma_first_painted(spans.drop_last());
    }
}

/// The characters of a changed line's text have their own colour, on the tint of
/// the change; those that the emphasis covers, and no others, are on the strong
/// one. An unchanged line's are on no tint.
pub proof fn law_words_are_emphasised_in_place(l: CodeV, p: Palette, n: u32, i: int)
    requires
        l.kind == LineKind::Deletion ==> l.old_no == Some(n),
        l.kind == LineKind::Insertion ==> l.new_no == Some(n),
        l.kind != LineKind::Context,
        n < 10000,
        0 <= i < runs_text(l.runs).len(),
    ensures
        ({
            let line = painted(code_line(l, p).spans);
            let hit = exists|k: int|
                0 <= k < l.emphasis.len() && (#[trigger] l.emphasis[k]).0 <= i < l.emphasis[k].1;
            &&& i + 6 < line.len()
            &&& line[i + 6].0 == runs_text(l.runs)[i]
            &&& line[i + 6].1.bg == Some(
                rgb_color(
                    if l.kind == LineKind::Insertion {
                        if hit {
                            p.ins_emph_bg
                        } else {
                            p.ins_bg
                        }
                    } else if hit {
                        p.del_emph_bg
                    } else {
                        p.del_bg
                    },
                ),
            )
        }),
{
    let (bar, tint, strong) = if l.kind == LineKind::Deletion {
        (Color::Red, p.del_bg, p.del_emph_bg)
    } else {
        (Color::Green, p.ins_bg, p.ins_emph_bg)
    };
    let flat = change_spans(l, bar, tint, p);
    let head = seq![flat[0], flat[1]];
    let tail = paint_runs(l.runs, Some(tint));
    assert(flat =~= head + tail);
    lemma_short_number(n as nat);
    reveal_strlit("▌");
    reveal_strlit(" ");
    reveal_with_fuel(spans_text, 3);
    assert(head.drop_last() =~= seq![flat[0]]);
    assert(seq![flat[0]].drop_last() =~= Seq::<SpanV>::empty());
    assert(spans_text(head).len() == 6);
    lemma_text_is_painted(head);
    lemma_painted_sum(head, tail);
    lemma_text_of_runs(l.runs, Some(tint));
    lemma_text_is_painted(tail);
    lemma_tinted(l.runs, tint, i);
    assert(painted(flat)[i + 6] == painted(tail)[i]);
    law_repaint_touches_only_ranges(flat, GUTTER_CHARS as int, l.emphasis, rgb_color(strong));
    let hit = exists|k: int|
        0 <= k < l.emphasis.len() && (#[trigger] l.emphasis[k]).0 <= i < l.emphasis[k].1;
    assert(in_emphasis(i + 6, GUTTER_CHARS as int, l.emphasis) == hit) by {
        if hit {
            let k = choose|k: int|
                0 <= k < l.emphasis.len() && (#[trigger] l.emphasis[k]).0 <= i < l.emphasis[k].1;
            assert(l.emphasis[k].0 <= i + 6 - GUTTER_CHARS < l.emphasis[k].1);
        }
    }
}

proof fn lemma_short_number(n: nat)
    ensures
        n < 10 ==> decimal(n).len() == 1,
        n < 100 ==> decimal(n).len() <= 2,
        n < 1000 ==> decimal(n).len() <= 3,
        n < 10000 ==> decimal(n).len() <= 4,
        n < 10000 ==> pad_left(decimal(n), 4).len() == 4,
    decreases n,
{
    if n >= 10 {
        lemma_short_number(n / 10);
    }
}

proof fn lemma_painted_sum(a: Seq<SpanV>, b: Seq<SpanV>)
    ensures
        painted(a + b) == painted(a) + painted(b),
    decreases b.len(),
{
    if b.len() > 0 {
        lemma_painted_sum(a, b.drop_last());
        assert((a + b).drop_last() =~= a + b.drop_last());
        assert(painted(a + b) =~= painted(a) + painted(b));
    } else {
        assert(a + b =~= a);
        assert(painted(a) + painted(b) =~= painted(a));
    }
}

proof fn lemma_tinted(runs: Seq<RunV>, tint: crate::style::Rgb, i: int)
    requires
        0 <= i < runs_text(runs).len(),
    ensures
        painted(paint_runs(runs, Some(tint))).len() == runs_text(runs).len(),
        painted(paint_runs(runs, Some(tint)))[i].1.bg == Some(rgb_color(tint)),
    decreases runs.len(),
{
    let all = paint_runs(runs, Some(tint));
    let init = runs.drop_last();
    assert(all.drop_last() =~= paint_runs(init, Some(tint)));
    lemma_text_of_runs(runs, Some(tint));
    lemma_text_of_runs(init, Some(tint));
    lemma_text_is_painted(all);
    lemma_text_is_painted(all.drop_last());
    if i < runs_text(init).len() {
        lemma_tinted(init, tint, i);
    }
}

// ---- folds ----------------------------------------------------------------------------

proof fn lemma_rows_sum(a: Seq<RowV>, b: Seq<RowV>)
    ensures
        unfolded(a + b) == unfolded(a) + unfolded(b),
    decreases a.len(),
{
    if a.len() > 0 {
        lemma_rows_sum(a.skip(1), b);
        assert((a + b).skip(1) =~= a.skip(1) + b);
        assert((a + b)[0] == a[0]);
        assert(unfolded(a + b) =~= unfolded(a) + unfolded(b));
    } else {
        assert(a + b =~= b);
        assert(unfolded(a) + unfolded(b) =~= unfolded(b));
    }
}

/// Whether a line is no more than `margin` lines from a change.
pub open spec fn close_to_change(rows: Seq<CodeV>, margin: int, i: int) -> bool {
    exists|j: int|
        0 <= j < rows.len() && (#[trigger] rows[j]).kind != LineKind::Context && -margin <= i - j
            <= margin
}

proof fn lemma_folds(rows: Seq<CodeV>, margin: int, i: int, k: int)
    requires
        0 <= i <= rows.len(),
        0 <= k < collapsed(rows, margin, i).len(),
        i > 0 && i < rows.len() && !near_change(rows, margin, i) ==> near_change(rows, margin, i - 1),
    ensures
        ({
            let c = collapsed(rows, margin, i);
            let at = i + unfolded(c.take(k)).len();
            &&& 0 <= at < rows.len()
            &&& match c[k] {
                RowV::Fold(s) => at + s.len() <= rows.len() && forall|t: int|
                    0 <= t < s.len() ==> !#[trigger] near_change(rows, margin, at + t),
                RowV::Code(_) => near_change(rows, margin, at) || ((at == 0 || near_change(
                    rows,
                    margin,
                    at - 1,
                )) && (at + 1 == rows.len() || near_change(rows, margin, at + 1))),
            }
        }),
    decreases rows.len() - i,
{
    let c = collapsed(rows, margin, i);
    assert(i < rows.len());
    let e = if near_change(rows, margin, i) {
        i + 1
    } else {
        far_end(rows, margin, i)
    };
    lemma_far_end(rows, margin, i);
    lemma_far_end(rows, margin, i + 1);
    lemma_far_stops(rows, margin, i);
    let rest = collapsed(rows, margin, e);
    assert(c =~= seq![c[0]] + rest);
    if k == 0 {
        assert(c.take(0) =~= Seq::<RowV>::empty());
    } else {
        if e < rows.len() && !near_change(rows, margin, e) {
            assert(near_change(rows, margin, e - 1));
        }
        lemma_folds(rows, margin, e, k - 1);
        assert(c.take(k) =~= seq![c[0]] + rest.take(k - 1));
        lemma_rows_sum(seq![c[0]], rest.take(k - 1));
        reveal_with_fuel(unfolded, 2);
        assert(seq![c[0]].skip(1) =~= Seq::<RowV>::empty());
        assert(unfolded(seq![c[0]]).len() == e - i);
        assert(c[k] == rest[k - 1]);
    }
}

proof fn lemma_far_stops(rows: Seq<CodeV>, margin: int, i: int)
    requires
        0 <= i <= rows.len(),
    ensures
        far_end(rows, margin, i) < rows.len() ==> near_change(rows, margin, far_end(rows, margin, i)),
    decreases rows.len() - i,
{
    if i < rows.len() && !near_change(rows, margin, i) {
        lemma_far_stops(rows, margin, i + 1);
    }
}

/// Folding hides exactly what is far from every change: no line within `margin`
/// lines of a change is in a fold, and a line that is farther away is shown only
/// where both its neighbours are not, so that a fold would hide it alone.
pub proof fn law_folds_hide_what_is_far_from_changes(rows: Seq<CodeV>, margin: int, k: int)
    requires
        0 <= k < collapsed(rows, margin, 0).len(),
    ensures
        ({
            let c = collapsed(rows, margin, 0);
            let at = unfolded(c.take(k)).len() as int;
            match c[k] {
                RowV::Fold(s) => {
                    &&& s == rows.subrange(at, at + s.len())
                    &&& forall|t: int|
                        at <= t < at + s.len() ==> !#[trigger] close_to_change(rows, margin, t)
                },
                RowV::Code(l) => {
                    &&& l == rows[at]
                    &&& close_to_change(rows, margin, at) || ((at == 0 || close_to_change(
                        rows,
                        margin,
                        at - 1,
                    )) && (at + 1 == rows.len() || close_to_change(rows, margin, at + 1)))
                },
            }
        }),
{
    let c = collapsed(rows, margin, 0);
    let at = unfolded(c.take(k)).len() as int;
    lemma_folds(rows, margin, 0, k);
    assert forall|t: int| #[trigger] close_to_change(rows, margin, t) == near_change(rows, margin, t) by {
        if close_to_change(rows, margin, t) {
            let j = choose|j: int|
                0 <= j < rows.len() && (#[trigger] rows[j]).kind != LineKind::Context && -margin <= t - j
                    <= margin;
            assert(j - margin <= t <= j + margin);
        }
        if near_change(rows, margin, t) {
            let j = choose|j: int|
                0 <= j < rows.len() && (#[trigger] rows[j]).kind != LineKind::Context && j - margin <= t
                    <= j + margin;
            assert(-margin <= t - j <= margin);
        }
    }
    law_folding_loses_nothing(rows, margin, 0);
    assert(rows.skip(0) =~= rows);
    assert(c =~= c.take(k) + (seq![c[k]] + c.skip(k + 1)));
    lemma_rows_sum(c.take(k), seq![c[k]] + c.skip(k + 1));
    lemma_rows_sum(seq![c[k]], c.skip(k + 1));
    reveal_with_fuel(unfolded, 2);
    assert(seq![c[k]].skip(1) =~= Seq::<RowV>::empty());
    match c[k] {
        RowV::Fold(s) => {
            assert(unfolded(seq![c[k]]) =~= s);
            assert(rows.subrange(at, at + s.len()) =~= s);
            assert forall|t: int| at <= t < at + s.len() implies !#[trigger] close_to_change(
                rows,
                margin,
                t,
            ) by {
                assert(!near_change(rows, margin, at + (t - at)));
            }
        },
        RowV::Code(l) => {
            assert(unfolded(seq![c[k]]) =~= seq![l]);
            assert(rows[at] == l);
        },
    }
}

} // verus!
