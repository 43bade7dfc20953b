//! Note cards: boxed blocks under the lines that they comment on, and the box
//! that a note is written in.

use vstd::prelude::*;

use crate::config::Theme;
use crate::elide::{cut_tail, elide_tail, plain_rows, wrap_plain};
use crate::render::{place_of_new, DiffDoc};
use crate::rows::RowV;
use crate::style::{accent, bad, info, line, ok, span, Color, Line, LineV, Span, SpanV, Style};
use crate::text::{
    concat2, concat3, decimal, decimal_of, deep, group_deep, rep, repeat_char, split, split_of,
    string_of,
};
use crate::textarea::{in_order, row_texts, wide, AreaV, TextArea};
use crate::thread::{Author, Thread, ThreadState, Turn};
use crate::wrap::{plus_of, spans_cells, text_cells, text_width};

verus! {

/// The least width of a card.
pub const MIN_WIDTH: u16 = 24;

/// Every card is set in from the left edge.
pub const CARD_INDENT: usize = 4;

/// Air to the right of a card.
pub const CARD_RIGHT_MARGIN: usize = 6;

/// Cards do not grow beyond this.
pub const MAX_CARD_WIDTH: usize = 60;

/// The label of a title keeps at least this many cells as long as a badge can
/// be dropped instead.
pub const MIN_LABEL: usize = 21;

/// What a block in the document is.
#[derive(Debug, Clone, Copy, PartialEq, Eq, Structural)]
pub enum CardKind {
    /// The card of a thread.
    Thread(u64),
    /// The box that a note is written in.
    Composer,
}

/// A block to be put into the document.
pub struct Card {
    /// The line of the document that it is put in front of.
    pub anchor: usize,
    pub lines: Vec<Line>,
    pub kind: CardKind,
}

// ---- places ------------------------------------------------------------------------

/// Where a note hangs, and whether its line is gone. A note about the whole
/// file hangs at the top; so does one whose line is gone, which is another
/// matter.
pub open spec fn anchor_place(rows: Seq<RowV>, end: u32) -> (int, bool) {
    if end == 0 {
        (0, false)
    } else {
        match place_of_new(rows, end) {
            Some(k) => (k + 1, false),
            None => (0, true),
        }
    }
}

pub fn anchor_of(built: &DiffDoc, end: u32) -> (r: (usize, bool))
    requires
        built.wf(),
    ensures
        (r.0 as int, r.1) == anchor_place(built.model(), end),
        r.0 <= built.model().len(),
{
    if end == 0 {
        return (0, false);
    }
    let n: usize = built.rows.len();
    match built.line_for_new(end) {
        Some(k) => (k + 1, false),
        None => (0, true),
    }
}

/// A range in words.
pub open spec fn range_words(prefix: Seq<char>, start: u32, end: u32) -> Seq<char> {
    if end == 0 {
        prefix + " · whole file"@
    } else if start == end {
        prefix + " · line "@ + decimal(start as nat)
    } else {
        prefix + " · lines "@ + decimal(start as nat) + "-"@ + decimal(end as nat)
    }
}

pub fn range_label(prefix: &str, start: u32, end: u32) -> (r: String)
    ensures
        r@ == range_words(prefix@, start, end),
{
    if end == 0 {
        concat2(prefix, " · whole file")
    } else if start == end {
        concat3(prefix, " · line ", decimal_of(start as u64).as_str())
    } else {
        let head: String = concat3(prefix, " · lines ", decimal_of(start as u64).as_str());
        concat3(head.as_str(), "-", decimal_of(end as u64).as_str())
    }
}

// ---- styles ------------------------------------------------------------------------

#[verifier::allow_in_spec]
pub fn title_style() -> Style
    returns
        (Style { fg: Some(accent()), bold: true, ..Style::plain() }),
{
    Style::new().fg(accent()).bold()
}

pub open spec fn badge_color(state: ThreadState) -> Color {
    match state {
        ThreadState::Draft => Color::Gray,
        ThreadState::Sent => info(),
        ThreadState::Answered => ok(),
        ThreadState::Failed => bad(),
        ThreadState::Resolved => Color::DarkGray,
    }
}

pub fn badge_style(state: ThreadState) -> (r: Style)
    ensures
        r == (Style { fg: Some(badge_color(state)), ..Style::plain() }),
{
    let c: Color = match state {
        ThreadState::Draft => Color::Gray,
        ThreadState::Sent => info(),
        ThreadState::Answered => ok(),
        ThreadState::Failed => bad(),
        ThreadState::Resolved => Color::DarkGray,
    };
    Style::new().fg(c)
}

#[verifier::allow_in_spec]
pub fn dim_style() -> Style
    returns
        (Style { dim: true, ..Style::plain() }),
{
    Style::new().dim()
}

/// The line number of a commented line, in the accent colour. The number is
/// the first span of an unchanged line, and the second one, behind the bar, of
/// a changed one. A fold has none.
pub open spec fn accented(lines: Seq<LineV>, i: int, rows: Seq<RowV>) -> Seq<LineV> {
    if 0 <= i < rows.len() && i < lines.len() && rows[i] is Code {
        let l = rows[i]->Code_0;
        let k: int = if l.old_no is Some && l.new_no is Some {
            0
        } else {
            1
        };
        let spans = lines[i].spans;
        if k < spans.len() {
            lines.update(
                i,
                LineV {
                    spans: spans.update(
                        k,
                        SpanV {
                            style: Style { fg: Some(accent()), bold: true, ..spans[k].style },
                            ..spans[k]
                        },
                    ),
                    ..lines[i]
                },
            )
        } else {
            lines
        }
    } else {
        lines
    }
}

pub fn accent_gutter(lines: &mut Vec<Line>, idx: usize, built: &DiffDoc)
    requires
        built.wf(),
    ensures
        deep(final(lines)@) == accented(deep(old(lines)@), idx as int, built.model()),
        final(lines)@.len() == old(lines)@.len(),
{
    let ghost before = deep(lines@);
    match built.numbers_of_line(idx) {
        None => {},
        Some((old_no, new_no)) => {
            let k: usize = if old_no.is_some() && new_no.is_some() {
                0
            } else {
                1
            };
            if idx < lines.len() {
                assert(before[idx as int] == lines@[idx as int].deep_view());
                if k < lines[idx].spans.len() {
                    let ghost spans0 = lines@[idx as int].spans@;
                    assert(deep(spans0)[k as int] == spans0[k as int].deep_view());
                    let style: Style = lines[idx].spans[k].style.fg(accent()).bold();
                    lines[idx].spans[k].style = style;
                    proof {
                        assert(deep(lines@[idx as int].spans@) =~= deep(spans0).update(
                            k as int,
                            SpanV { style, ..deep(spans0)[k as int] },
                        ));
                        assert(deep(lines@) =~= accented(before, idx as int, built.model()));
                    }
                }
            }
        },
    }
}

// ---- sizes ---------------------------------------------------------------------------

/// The width of a card in a pane of `width` cells.
pub open spec fn box_width(width: int) -> int {
    let outer = if width - CARD_INDENT > MIN_WIDTH {
        width - CARD_INDENT
    } else {
        MIN_WIDTH as int
    };
    let w = width - (CARD_INDENT + CARD_RIGHT_MARGIN);
    let capped = if w > MAX_CARD_WIDTH {
        MAX_CARD_WIDTH as int
    } else {
        w
    };
    let usable = if capped < MIN_WIDTH {
        MIN_WIDTH as int
    } else {
        capped
    };
    if usable < outer {
        usable
    } else {
        outer
    }
}

pub fn card_box_width(width: usize) -> (r: usize)
    ensures
        r == box_width(width as int),
        24 <= r <= 60,
{
    let outer: usize = if width > CARD_INDENT && width - CARD_INDENT > 24 {
        width - CARD_INDENT
    } else {
        24
    };
    let w: usize = if width > 10 {
        width - 10
    } else {
        0
    };
    let capped: usize = if w > MAX_CARD_WIDTH {
        MAX_CARD_WIDTH
    } else {
        w
    };
    let usable: usize = if capped < 24 {
        24
    } else {
        capped
    };
    if usable < outer {
        usable
    } else {
        outer
    }
}

/// The cells for text in a card.
pub fn card_text_width(width: usize) -> (r: usize)
    ensures
        r == box_width(width as int) - 4,
        20 <= r <= 56,
{
    card_box_width(width) - 4
}

// ---- titles --------------------------------------------------------------------------------

/// The cells of all badges of a title.
pub open spec fn badge_cells(spans: Seq<SpanV>) -> int {
    spans_cells(spans) - text_cells(spans[0].content)
}

pub open spec fn minus(a: int, b: int) -> int {
    if a > b {
        a - b
    } else {
        0
    }
}

/// A title without the badges that leave its label no room, least important
/// ones first.
pub open spec fn fewer_badges(spans: Seq<SpanV>, avail: int) -> Seq<SpanV>
    decreases spans.len(),
{
    if spans.len() <= 1 || spans_cells(spans) <= avail || minus(avail, badge_cells(spans)) >= MIN_LABEL {
        spans
    } else {
        fewer_badges(spans.remove(1), avail)
    }
}

/// A title in `avail` cells: badges are dropped, then the label is cut.
pub open spec fn fitted_title(spans: Seq<SpanV>, avail: int) -> Seq<SpanV> {
    if spans.len() == 0 || spans_cells(spans) <= avail {
        spans
    } else {
        let few = fewer_badges(spans, avail);
        few.update(
            0,
            span(
                cut_tail(few[0].content, minus(avail, badge_cells(few)) as nat),
                few[0].style,
            ),
        )
    }
}

pub(crate) fn cells_of_spans(spans: &Vec<Span>) -> (r: usize)
    ensures
        r == spans_cells(deep(spans@)),
{
    broadcast use group_deep;

    let ghost all = deep(spans@);
    let mut total: usize = 0;
    let mut i: usize = 0;
    while i < spans.len()
        invariant
            i <= spans@.len(),
            all == deep(spans@),
            total == spans_cells(all.take(i as int)),
        decreases spans@.len() - i,
    {
        assert(all.take(i + 1).drop_last() =~= all.take(i as int));
        assert(all[i as int] == spans@[i as int].deep_view());
        total = plus_of(total, text_width(spans[i].content.as_str()));
        i += 1;
    }
    total
}

proof fn lemma_first_within(spans: Seq<SpanV>)
    requires
        spans.len() > 0,
    ensures
        text_cells(spans[0].content) <= spans_cells(spans) <= usize::MAX,
    decreases spans.len(),
{
    if spans.len() > 1 {
        lemma_first_within(spans.drop_last());
        assert(spans.drop_last()[0] == spans[0]);
    } else {
        assert(spans.drop_last() =~= Seq::<SpanV>::empty());
    }
}

fn minus_of(a: usize, b: usize) -> (r: usize)
    ensures
        r == minus(a as int, b as int),
{
    if a > b {
        a - b
    } else {
        0
    }
}

pub fn elide_title(title: Vec<Span>, avail: usize) -> (r: Vec<Span>)
    ensures
        deep(r@) == fitted_title(deep(title@), avail as int),
{
    broadcast use group_deep;

    let mut spans: Vec<Span> = title;
    let ghost all = deep(spans@);
    if spans.len() == 0 || cells_of_spans(&spans) <= avail {
        return spans;
    }
    let mut going: bool = true;
    while spans.len() > 1 && going
        invariant
            spans@.len() >= 1,
            fewer_badges(all, avail as int) == fewer_badges(deep(spans@), avail as int),
            !going ==> fewer_badges(deep(spans@), avail as int) == deep(spans@),
        decreases spans@.len(), if going { 1int } else { 0int },
    {
        let ghost cur = deep(spans@);
        assert(cur[0] == spans@[0].deep_view());
        proof {
            lemma_first_within(cur);
        }
        let total: usize = cells_of_spans(&spans);
        let badges: usize = total - text_width(spans[0].content.as_str());
        if total <= avail || minus_of(avail, badges) >= MIN_LABEL {
            going = false;
        } else {
            let ghost pre = spans@;
            let _gone: Span = spans.remove(1);
            assert(deep(spans@) =~= deep(pre).remove(1));
        }
    }
    let ghost few = deep(spans@);
    proof {
        assert(few == fewer_badges(all, avail as int));
        assert(few[0] == spans@[0].deep_view());
        lemma_first_within(few);
    }
    let badges: usize = cells_of_spans(&spans) - text_width(spans[0].content.as_str());
    let head: String = elide_tail(spans[0].content.as_str(), minus_of(avail, badges));
    let style: Style = spans[0].style;
    let ghost pre = spans@;
    spans[0] = Span::styled(head, style);
    assert(deep(spans@) =~= few.update(0, span(head@, style)));
    spans
}

// ---- boxes ---------------------------------------------------------------------------------

pub open spec fn border_style(theme: Theme, focused: bool) -> Style {
    Style {
        fg: Some(
            if focused {
                accent()
            } else if theme == Theme::Light {
                Color::Rgb(0x9a, 0xa0, 0xa6)
            } else {
                Color::Rgb(0x6c, 0x70, 0x86)
            },
        ),
        ..Style::plain()
    }
}

pub open spec fn body_style(theme: Theme) -> Style {
    Style {
        fg: Some(
            if theme == Theme::Light {
                Color::Rgb(0x4c, 0x4f, 0x69)
            } else {
                Color::Rgb(0xcd, 0xd6, 0xf4)
            },
        ),
        ..Style::plain()
    }
}

pub open spec fn indent_span() -> SpanV {
    span(rep(' ', CARD_INDENT as nat), Style::plain())
}

/// The top of a box: its title in the border, which closes in the box's last
/// column.
pub open spec fn box_top(title: Seq<SpanV>, width: int, border: Style) -> LineV {
    let avail = box_width(width) - 3;
    let shown = fitted_title(title, avail);
    line(
        seq![indent_span(), span("╭─"@, border)] + shown + seq![
            span(rep('─', minus(avail, spans_cells(shown) as int) as nat) + "╮"@, border),
        ],
        Style::plain(),
    )
}

/// Spans of a body: those without a style of their own take the body's.
pub open spec fn body_spans(row: Seq<SpanV>, body: Style) -> Seq<SpanV> {
    Seq::new(
        row.len(),
        |i: int|
            if row[i].style == Style::plain() {
                SpanV { style: body, ..row[i] }
            } else {
                row[i]
            },
    )
}

/// A row of a box, filled up to its right border.
pub open spec fn box_row(row: Seq<SpanV>, width: int, border: Style, body: Style) -> LineV {
    line(
        seq![indent_span(), span("│ "@, border)] + body_spans(row, body) + seq![
            span(
                rep(' ', minus(box_width(width) - 4, spans_cells(row) as int) as nat) + " │"@,
                border,
            ),
        ],
        Style::plain(),
    )
}

pub open spec fn box_bottom(width: int, border: Style) -> LineV {
    line(
        seq![indent_span(), span("╰"@ + rep('─', (box_width(width) - 2) as nat) + "╯"@, border)],
        Style::plain(),
    )
}

/// A titled box around rows. A box without rows still has one, empty.
pub open spec fn titled_box(title: Seq<SpanV>, rows: Seq<Seq<SpanV>>, width: int, theme: Theme, focused: bool) -> Seq<LineV> {
    let border = border_style(theme, focused);
    let body = body_style(theme);
    let shown = if rows.len() == 0 {
        seq![seq![span(Seq::empty(), Style::plain())]]
    } else {
        rows
    };
    seq![box_top(title, width, border)] + Seq::new(
        shown.len(),
        |i: int| box_row(shown[i], width, border, body),
    ) + seq![box_bottom(width, border)]
}

/// The models of rows of spans.
pub open spec fn row_models(v: Seq<Vec<Span>>) -> Seq<Seq<SpanV>> {
    Seq::new(v.len(), |i: int| deep(v[i]@))
}

fn push_body(out: &mut Vec<Span>, row: &Vec<Span>, body: Style)
    ensures
        deep(final(out)@) == deep(old(out)@) + body_spans(deep(row@), body),
{
    broadcast use group_deep;

    let ghost before = deep(out@);
    let ghost want = body_spans(deep(row@), body);
    let mut i: usize = 0;
    assert(before + want.take(0) =~= before);
    while i < row.len()
        invariant
            i <= row@.len(),
            want == body_spans(deep(row@), body),
            deep(out@) == before + want.take(i as int),
        decreases row@.len() - i,
    {
        assert(deep(row@)[i as int] == row@[i as int].deep_view());
        let s: Span = if row[i].style == Style::new() {
            Span::styled(row[i].content.clone(), body)
        } else {
            row[i].copy()
        };
        assert(s.deep_view() == want[i as int]);
        let ghost pre = deep(out@);
        out.push(s);
        assert(deep(out@) == pre.push(want[i as int]));
        assert(want.take(i + 1) =~= want.take(i as int).push(want[i as int]));
        assert(deep(out@) =~= before + want.take(i + 1));
        i += 1;
    }
}

fn indent_of() -> (r: Span)
    ensures
        r.deep_view() == indent_span(),
{
    Span::raw(repeat_char(' ', CARD_INDENT))
}

fn top_of(title: Vec<Span>, width: usize, border: Style) -> (r: Line)
    ensures
        r.deep_view() == box_top(deep(title@), width as int, border),
{
    broadcast use group_deep;

    let avail: usize = card_box_width(width) - 3;
    let mut shown: Vec<Span> = elide_title(title, avail);
    let fill: usize = minus_of(avail, cells_of_spans(&shown));
    let ghost sv = deep(shown@);
    let mut head: Vec<Span> = Vec::new();
    head.push(indent_of());
    head.push(Span::styled("╭─".to_owned(), border));
    let ghost lead = deep(head@);
    head.append(&mut shown);
    assert(deep(head@) =~= lead + sv);
    let close: String = concat2(repeat_char('─', fill).as_str(), "╮");
    let ghost cv = close@;
    head.push(Span::styled(close, border));
    let r: Line = Line { spans: head, style: Style::new() };
    assert(r.deep_view().spans =~= box_top(deep(title@), width as int, border).spans);
    r
}

fn row_of(row: &Vec<Span>, width: usize, border: Style, body: Style) -> (r: Line)
    ensures
        r.deep_view() == box_row(deep(row@), width as int, border, body),
{
    broadcast use group_deep;

    let gap: usize = minus_of(card_text_width(width), cells_of_spans(row));
    let mut spans: Vec<Span> = Vec::new();
    spans.push(indent_of());
    spans.push(Span::styled("│ ".to_owned(), border));
    push_body(&mut spans, row, body);
    spans.push(Span::styled(concat2(repeat_char(' ', gap).as_str(), " │"), border));
    let r: Line = Line { spans, style: Style::new() };
    assert(r.deep_view().spans =~= box_row(deep(row@), width as int, border, body).spans);
    r
}

fn bottom_of(width: usize, border: Style) -> (r: Line)
    ensures
        r.deep_view() == box_bottom(width as int, border),
{
    broadcast use group_deep;

    let mut spans: Vec<Span> = Vec::new();
    spans.push(indent_of());
    let bar: String = concat3(
        "╰",
        repeat_char('─', card_box_width(width) - 2).as_str(),
        "╯",
    );
    spans.push(Span::styled(bar, border));
    let r: Line = Line { spans, style: Style::new() };
    assert(r.deep_view().spans =~= box_bottom(width as int, border).spans);
    r
}

/// Draw a titled box around rows that are already wrapped.
pub fn card_box_titled(title: Vec<Span>, rows: Vec<Vec<Span>>, width: usize, theme: Theme, focused: bool) -> (r: Vec<Line>)
    ensures
        deep(r@) == titled_box(deep(title@), row_models(rows@), width as int, theme, focused),
{
    broadcast use group_deep;

    let border: Style = Style::new().fg(
        if focused {
            accent()
        } else if theme.is_light() {
            Color::Rgb(0x9a, 0xa0, 0xa6)
        } else {
            Color::Rgb(0x6c, 0x70, 0x86)
        },
    );
    let body: Style = Style::new().fg(
        if theme.is_light() {
            Color::Rgb(0x4c, 0x4f, 0x69)
        } else {
            Color::Rgb(0xcd, 0xd6, 0xf4)
        },
    );
    let ghost w = width as int;
    let ghost want = titled_box(deep(title@), row_models(rows@), w, theme, focused);
    let mut shown: Vec<Vec<Span>> = rows;
    if shown.len() == 0 {
        let mut one: Vec<Span> = Vec::new();
        one.push(Span::raw(String::new()));
        assert(deep(one@) =~= seq![span(Seq::<char>::empty(), Style::plain())]);
        shown.push(one);
        assert(row_models(shown@) =~= seq![seq![span(Seq::<char>::empty(), Style::plain())]]);
    }
    let ghost sv = row_models(shown@);
    let ghost body_rows = Seq::new(sv.len(), |i: int| box_row(sv[i], w, border, body));
    let mut lines: Vec<Line> = Vec::new();
    lines.push(top_of(title, width, border));
    let ghost top = deep(lines@);
    let mut i: usize = 0;
    assert(top + body_rows.take(0) =~= top);
    while i < shown.len()
        invariant
            i <= shown@.len(),
            w == width,
            sv == row_models(shown@),
            body_rows == Seq::new(sv.len(), |i: int| box_row(sv[i], w, border, body)),
            deep(lines@) == top + body_rows.take(i as int),
        decreases shown@.len() - i,
    {
        assert(sv[i as int] == deep(shown@[i as int]@));
        let l: Line = row_of(&shown[i], width, border, body);
        assert(l.deep_view() == body_rows[i as int]);
        let ghost pre = deep(lines@);
        lines.push(l);
        assert(deep(lines@) == pre.push(body_rows[i as int]));
        assert(body_rows.take(i + 1) =~= body_rows.take(i as int).push(body_rows[i as int]));
        assert(deep(lines@) =~= top + body_rows.take(i + 1));
        i += 1;
    }
    lines.push(bottom_of(width, border));
    assert(deep(lines@) =~= want);
    lines
}

/// Draw a box titled with one text.
pub fn card_box(label: &str, rows: Vec<Vec<Span>>, width: usize, theme: Theme, focused: bool) -> (r: Vec<Line>)
    ensures
        deep(r@) == titled_box(
            seq![
                span(
                    cut_tail(" "@ + label@ + " "@, (box_width(width as int) - 3) as nat),
                    title_style(),
                ),
            ],
            row_models(rows@),
            width as int,
            theme,
            focused,
        ),
{
    broadcast use group_deep;

    let padded: String = concat3(" ", label, " ");
    let text: String = elide_tail(padded.as_str(), card_box_width(width) - 3);
    let mut title: Vec<Span> = Vec::new();
    title.push(Span::styled(text, title_style()));
    assert(deep(title@) =~= seq![span(text@, title_style())]);
    card_box_titled(title, rows, width, theme, focused)
}

// ---- threads -------------------------------------------------------------------------------

/// The user's own turns.
pub open spec fn own_turns(turns: Seq<Turn>) -> Seq<Turn>
    decreases turns.len(),
{
    if turns.len() == 0 {
        Seq::empty()
    } else if turns.last().author == Author::Human {
        own_turns(turns.drop_last()).push(turns.last())
    } else {
        own_turns(turns.drop_last())
    }
}

/// Texts as rows of one unstyled span each.
pub open spec fn raw_rows(texts: Seq<Seq<char>>) -> Seq<Seq<SpanV>> {
    Seq::new(texts.len(), |i: int| seq![span(texts[i], Style::plain())])
}

/// The rows of a text of several lines.
pub open spec fn text_rows(logical: Seq<Seq<char>>, width: nat) -> Seq<Seq<SpanV>>
    decreases logical.len(),
{
    if logical.len() == 0 {
        Seq::empty()
    } else {
        text_rows(logical.drop_last(), width) + raw_rows(plain_rows(logical.last(), width))
    }
}

/// The rows of turns, with a blank row in front of each but the very first.
pub open spec fn turn_rows(turns: Seq<Turn>, hidden: bool, width: nat) -> Seq<Seq<SpanV>>
    decreases turns.len(),
{
    if turns.len() == 0 {
        Seq::empty()
    } else {
        let gap = if turns.len() > 1 || hidden {
            seq![seq![span(Seq::empty(), Style::plain())]]
        } else {
            Seq::empty()
        };
        turn_rows(turns.drop_last(), hidden, width) + gap + text_rows(
            split(turns.last().text@, '\n'),
            width,
        )
    }
}

/// How many notes a collapsed card hides, in words.
pub open spec fn hidden_words(n: nat) -> Seq<char> {
    "… "@ + decimal(n) + " earlier note"@ + if n == 1 {
        Seq::empty()
    } else {
        "s"@
    }
}

/// The rows of a thread's card: the user's own turns, or only the newest of
/// them and a count of the rest. What the agent said is not repeated here.
pub open spec fn thread_rows(turns: Seq<Turn>, width: nat, collapsed: bool) -> Seq<Seq<SpanV>> {
    let mine = own_turns(turns);
    if collapsed && mine.len() > 1 {
        seq![seq![span(hidden_words((mine.len() - 1) as nat), dim_style())]] + turn_rows(
            seq![mine.last()],
            true,
            width,
        )
    } else {
        turn_rows(mine, false, width)
    }
}

fn push_texts(rows: &mut Vec<Vec<Span>>, texts: Vec<String>)
    ensures
        row_models(final(rows)@) == row_models(old(rows)@) + raw_rows(deep(texts@)),
{
    broadcast use group_deep;

    let ghost before = row_models(rows@);
    let ghost want = raw_rows(deep(texts@));
    let mut i: usize = 0;
    assert(before + want.take(0) =~= before);
    while i < texts.len()
        invariant
            i <= texts@.len(),
            want == raw_rows(deep(texts@)),
            row_models(rows@) == before + want.take(i as int),
        decreases texts@.len() - i,
    {
        let mut one: Vec<Span> = Vec::new();
        one.push(Span::raw(texts[i].clone()));
        assert(deep(one@) =~= want[i as int]);
        let ghost pre = row_models(rows@);
        rows.push(one);
        assert(row_models(rows@) =~= pre.push(want[i as int]));
        assert(want.take(i + 1) =~= want.take(i as int).push(want[i as int]));
        assert(row_models(rows@) =~= before + want.take(i + 1));
        i += 1;
    }
}

fn push_row(rows: &mut Vec<Vec<Span>>, s: Span)
    ensures
        row_models(final(rows)@) == row_models(old(rows)@).push(seq![s.deep_view()]),
{
    broadcast use group_deep;

    let ghost before = row_models(rows@);
    let mut one: Vec<Span> = Vec::new();
    let ghost sv = s.deep_view();
    one.push(s);
    assert(deep(one@) =~= seq![sv]);
    rows.push(one);
    assert(row_models(rows@) =~= before.push(seq![sv]));
}

fn push_text(rows: &mut Vec<Vec<Span>>, text: &str, width: usize)
    ensures
        row_models(final(rows)@) == row_models(old(rows)@) + text_rows(
            split(text@, '\n'),
            width as nat,
        ),
{
    broadcast use group_deep;

    let ghost before = row_models(rows@);
    let logical: Vec<String> = split_of(text, '\n');
    let ghost all = deep(logical@);
    let mut i: usize = 0;
    assert(before + text_rows(all.take(0), width as nat) =~= before);
    while i < logical.len()
        invariant
            i <= logical@.len(),
            all == deep(logical@),
            row_models(rows@) == before + text_rows(all.take(i as int), width as nat),
        decreases logical@.len() - i,
    {
        assert(all.take(i + 1).drop_last() =~= all.take(i as int));
        assert(all[i as int] == logical@[i as int]@);
        let pieces: Vec<String> = wrap_plain(logical[i].as_str(), width);
        push_texts(rows, pieces);
        assert(row_models(rows@) =~= before + text_rows(all.take(i + 1), width as nat));
        i += 1;
    }
}

/// The positions of the user's own turns.
fn own_positions(turns: &Vec<Turn>) -> (r: Vec<usize>)
    ensures
        r@.len() == own_turns(turns@).len(),
        forall|k: int|
            0 <= k < r@.len() ==> (#[trigger] r@[k]) < turns@.len() && turns@[r@[k] as int] == own_turns(
                turns@,
            )[k],
{
    broadcast use group_deep;

    let mut out: Vec<usize> = Vec::new();
    let mut i: usize = 0;
    while i < turns.len()
        invariant
            i <= turns@.len(),
            out@.len() == own_turns(turns@.take(i as int)).len(),
            forall|k: int|
                0 <= k < out@.len() ==> (#[trigger] out@[k]) < turns@.len() && turns@[out@[k] as int]
                    == own_turns(turns@.take(i as int))[k],
        decreases turns@.len() - i,
    {
        assert(turns@.take(i + 1).drop_last() =~= turns@.take(i as int));
        if turns[i].author == Author::Human {
            out.push(i);
        }
        i += 1;
    }
    out
}

/// A conversation as a card.
pub fn thread_card(title: Vec<Span>, thread: &Thread, width: usize, theme: Theme, collapsed: bool) -> (r: Vec<Line>)
    ensures
        deep(r@) == titled_box(
            deep(title@),
            thread_rows(thread.turns@, (box_width(width as int) - 4) as nat, collapsed),
            width as int,
            theme,
            false,
        ),
{
    broadcast use group_deep;

    let text_w: usize = card_text_width(width);
    let mine: Vec<usize> = own_positions(&thread.turns);
    let ghost own = own_turns(thread.turns@);
    let mut rows: Vec<Vec<Span>> = Vec::new();
    assert(row_models(rows@) =~= Seq::<Seq<SpanV>>::empty());
    if collapsed && mine.len() > 1 {
        let n: usize = mine.len() - 1;
        let head: String = concat3("… ", decimal_of(n as u64).as_str(), " earlier note");
        let words: String = concat2(head.as_str(), if n == 1 { "" } else { "s" });
        proof {
            reveal_strlit("");
            assert(""@ =~= Seq::<char>::empty());
            assert(words@ =~= hidden_words(n as nat));
        }
        push_row(&mut rows, Span::styled(words, dim_style()));
        push_row(&mut rows, Span::raw(String::new()));
        push_text(&mut rows, thread.turns[mine[n]].text.as_str(), text_w);
        proof {
            let last = own.last();
            assert(thread.turns@[mine@[n as int] as int] == last);
            reveal_with_fuel(turn_rows, 2);
            assert(seq![last].drop_last() =~= Seq::<Turn>::empty());
            assert(row_models(rows@) =~= thread_rows(thread.turns@, text_w as nat, collapsed));
        }
    } else {
        let mut i: usize = 0;
        while i < mine.len()
            invariant
                i <= mine@.len(),
                own == own_turns(thread.turns@),
                mine@.len() == own.len(),
                forall|k: int|
                    0 <= k < mine@.len() ==> (#[trigger] mine@[k]) < thread.turns@.len()
                        && thread.turns@[mine@[k] as int] == own[k],
                row_models(rows@) == turn_rows(own.take(i as int), false, text_w as nat),
            decreases mine@.len() - i,
        {
            let ghost before = row_models(rows@);
            assert(own.take(i + 1).drop_last() =~= own.take(i as int));
            assert(mine@[i as int] < thread.turns@.len());
            if i > 0 {
                push_row(&mut rows, Span::raw(String::new()));
            }
            push_text(&mut rows, thread.turns[mine[i]].text.as_str(), text_w);
            proof {
                assert(own.take(i + 1).last() == own[i as int]);
                assert(row_models(rows@) =~= turn_rows(own.take(i + 1), false, text_w as nat));
            }
            i += 1;
        }
    }
    card_box_titled(title, rows, width, theme, false)
}

// ---- the composer -----------------------------------------------------------------------------

pub open spec fn caret_style() -> Style {
    Style { reversed: true, ..Style::plain() }
}

/// A row with the caret on one of its characters, or behind the last one.
pub open spec fn caret_spans(row: Seq<char>, col: int) -> Seq<SpanV> {
    seq![
        span(row.take(col), Style::plain()),
        span(
            if col < row.len() {
                seq![row[col]]
            } else {
                " "@
            },
            caret_style(),
        ),
        span(
            if col < row.len() {
                row.skip(col + 1)
            } else {
                Seq::empty()
            },
            Style::plain(),
        ),
    ]
}

pub open spec fn draft_rows(rows: Seq<Seq<char>>, caret_row: int, caret_col: int) -> Seq<Seq<SpanV>> {
    Seq::new(
        rows.len(),
        |i: int|
            if i == caret_row {
                caret_spans(rows[i], caret_col)
            } else {
                seq![span(rows[i], Style::plain())]
            },
    )
}

/// The rows of the box: the text in its rows, or what to do with an empty box.
pub open spec fn composer_rows(input: AreaV, text_w: int) -> Seq<Seq<SpanV>> {
    if input.text.len() == 0 {
        seq![
            seq![
                span(" "@, caret_style()),
                span(cut_tail("write a note…"@, (text_w - 1) as nat), dim_style()),
            ],
        ]
    } else {
        draft_rows(
            row_texts(input.text, input.rows(text_w)),
            input.row(text_w),
            input.col(text_w),
        )
    }
}

/// The box that a note is written in.
pub fn composer_card(label: &str, input: &TextArea, width: usize, theme: Theme) -> (r: Vec<Line>)
    requires
        input.wf(),
    ensures
        deep(r@) == titled_box(
            seq![
                span(
                    cut_tail(" "@ + label@ + " "@, (box_width(width as int) - 3) as nat),
                    title_style(),
                ),
            ],
            composer_rows(input.model(), box_width(width as int) - 4),
            width as int,
            theme,
            true,
        ),
{
    broadcast use group_deep;

    let text_w: usize = card_text_width(width);
    let caret: Style = Style::new().reversed();
    let mut rows: Vec<Vec<Span>> = Vec::new();
    assert(row_models(rows@) =~= Seq::<Seq<SpanV>>::empty());
    if input.is_empty() {
        let hint: String = elide_tail("write a note…", text_w - 1);
        let mut one: Vec<Span> = Vec::new();
        one.push(Span::styled(" ".to_owned(), caret));
        one.push(Span::styled(hint, dim_style()));
        assert(deep(one@) =~= seq![span(" "@, caret_style()), span(hint@, dim_style())]);
        rows.push(one);
        assert(row_models(rows@) =~= composer_rows(input.model(), text_w as int));
        return card_box(label, rows, width, theme, true);
    }
    let places: Vec<(usize, usize)> = input.layout(text_w);
    let (caret_row, col): (usize, usize) = input.caret_place(&places, Ghost(text_w as int));
    let ghost at = wide(places@);
    let ghost all = row_texts(input.text@, at);
    let ghost want = draft_rows(all, caret_row as int, col as int);
    let mut i: usize = 0;
    while i < places.len()
        invariant
            i <= places@.len(),
            at == wide(places@),
            in_order(at, 0, input.text@.len() as int),
            all == row_texts(input.text@, at),
            caret == caret_style(),
            want == draft_rows(all, caret_row as int, col as int),
            caret_row < places@.len(),
            places@[caret_row as int].0 + col <= places@[caret_row as int].1,
            row_models(rows@) == want.take(i as int),
        decreases places@.len() - i,
    {
        let (a, b) = places[i];
        assert(at[i as int] == (a as int, b as int));
        let ghost text = all[i as int];
        assert(text == input.text@.subrange(a as int, b as int));
        let mut one: Vec<Span> = Vec::new();
        if i != caret_row {
            one.push(Span::raw(string_of(input.text.as_slice(), a, b)));
        } else {
            let c: usize = a + col;
            one.push(Span::raw(string_of(input.text.as_slice(), a, c)));
            if c < b {
                one.push(Span::styled(string_of(input.text.as_slice(), c, c + 1), caret));
                one.push(Span::raw(string_of(input.text.as_slice(), c + 1, b)));
                proof {
                    assert(input.text@.subrange(a as int, c as int) =~= text.take(col as int));
                    assert(input.text@.subrange(c as int, c + 1) =~= seq![text[col as int]]);
                    assert(input.text@.subrange(c + 1, b as int) =~= text.skip(col + 1));
                }
            } else {
                one.push(Span::styled(" ".to_owned(), caret));
                one.push(Span::raw(String::new()));
                assert(input.text@.subrange(a as int, c as int) =~= text.take(col as int));
            }
        }
        assert(deep(one@) =~= want[i as int]);
        let ghost pre = row_models(rows@);
        rows.push(one);
        assert(row_models(rows@) =~= pre.push(want[i as int]));
        assert(want.take(i + 1) =~= want.take(i as int).push(want[i as int]));
        i += 1;
    }
    assert(want.take(want.len() as int) =~= want);
    card_box(label, rows, width, theme, true)
}

// ---- laws --------------------------------------------------------------------------------------

/// A card is as tall as its rows and its borders, and at least three lines.
pub proof fn law_card_height(title: Seq<SpanV>, rows: Seq<Seq<SpanV>>, width: int, theme: Theme, focused: bool)
    ensures
        titled_box(title, rows, width, theme, focused).len() == 2 + if rows.len() == 0 {
            1
        } else {
            rows.len()
        },
{
}

/// A card never reaches beyond a pane that has room for the smallest card.
pub proof fn law_card_fits_the_pane(width: int)
    requires
        width >= MIN_WIDTH + CARD_INDENT,
    ensures
        MIN_WIDTH <= box_width(width) <= MAX_CARD_WIDTH,
        CARD_INDENT + box_width(width) <= width,
{
}

/// However narrow the card, the badges it has room for stay whole: only the
/// label is ever cut, and the last badge is the last to go.
pub proof fn law_label_gives_way_first(spans: Seq<SpanV>, avail: int)
    requires
        spans.len() > 0,
    ensures
        ({
            let few = fewer_badges(spans, avail);
            let r = fitted_title(spans, avail);
            &&& 1 <= few.len() <= spans.len()
            &&& few[0] == spans[0]
            &&& forall|i: int|
                1 <= i < few.len() ==> #[trigger] few[i] == spans[spans.len() - few.len() + i]
            &&& spans_cells(spans) > avail ==> r.len() == few.len() && forall|i: int|
                1 <= i < r.len() ==> #[trigger] r[i] == few[i]
        }),
    decreases spans.len(),
{
    if !(spans.len() <= 1 || spans_cells(spans) <= avail || minus(avail, badge_cells(spans)) >= MIN_LABEL) {
        let less = spans.remove(1);
        law_label_gives_way_first(less, avail);
        let few = fewer_badges(spans, avail);
        assert forall|i: int| 1 <= i < few.len() implies #[trigger] few[i] == spans[spans.len()
            - few.len() + i] by {
            assert(few[i] == less[less.len() - few.len() + i]);
        }
    }
}

} // verus!
