//! The document of the diff pane: the diff, cut to a bearable length, with the
//! file's conversations and the box being written in under their lines.

use std::collections::HashSet;

use vstd::prelude::*;
use vstd::std_specs::hash::group_hash_axioms;

use crate::card::{
    accent_gutter, accented, anchor_of, anchor_place, badge_style, box_width, composer_card,
    composer_rows, dim_style, range_label, range_words, thread_card, thread_rows, title_style,
    titled_box, Card, CardKind,
};
use crate::config::Theme;
use crate::elide::cut_tail;
use crate::path::{is_same_file, same_file};
use crate::render::DiffDoc;
use crate::rows::RowV;
use crate::splice::{
    by_anchor, clamped_cards, copy_lines, law_card_lines_rise, lemma_by_anchor,
    lemma_clamped_within, lines_of_cards, rising, span_of_composer, splice_cards, spliced,
    starts_of_cards, total_lines, CardV, Spliced,
};
use crate::style::{span, Color, Line, LineV, Span, SpanV, Style};
use crate::text::{concat3, decimal, decimal_of, deep, group_deep};
use crate::textarea::{AreaV, TextArea};
use crate::thread::{Thread, ThreadState};

verus! {

/// A diff longer than this is cut.
pub const MAX_LINES: usize = 20_000;

// ---- the cards of a file ---------------------------------------------------------

pub open spec fn state_badge(t: Thread, asking: bool) -> Seq<SpanV> {
    if asking {
        seq![span("· asking… "@, badge_style_of(ThreadState::Sent))]
    } else if t.state != ThreadState::Draft {
        seq![span("· "@ + t.state.word() + " "@, badge_style_of(t.state))]
    } else {
        Seq::empty()
    }
}

pub open spec fn badge_style_of(state: ThreadState) -> Style {
    Style { fg: Some(crate::card::badge_color(state)), ..Style::plain() }
}

/// A conversation's title: its lines, the number of its turns, what has become
/// of it, and whether its line is gone. A conversation that an agent is being
/// asked about says so, whatever is on record.
pub open spec fn thread_title(t: Thread, lost: bool, asking: bool) -> Seq<SpanV> {
    seq![span(" "@ + range_words("note"@, t.anchor.start, t.anchor.end) + " "@, title_style())] + (
    if t.turns@.len() > 1 {
        seq![span("· "@ + decimal(t.turns@.len()) + " turns "@, dim_style())]
    } else {
        Seq::empty()
    }) + state_badge(t, asking) + (if lost {
        seq![span("· anchor lost "@, Style { fg: Some(Color::Red), ..Style::plain() })]
    } else {
        Seq::empty()
    })
}

pub open spec fn thread_block(t: Thread, rows: Seq<RowV>, width: int, theme: Theme, collapsed: bool, asking: bool) -> CardV {
    let (anchor, lost) = anchor_place(rows, t.anchor.end);
    CardV {
        anchor,
        lines: titled_box(
            thread_title(t, lost, asking),
            thread_rows(t.turns@, (box_width(width) - 4) as nat, collapsed),
            width,
            theme,
            false,
        ),
        kind: CardKind::Thread(t.id),
    }
}

/// The cards of a file's conversations. The one being rewritten has none: the
/// box stands in its place.
pub open spec fn thread_blocks(
    threads: Seq<Thread>,
    file: Seq<char>,
    editing: Option<u64>,
    rows: Seq<RowV>,
    width: int,
    theme: Theme,
    collapsed: Set<u64>,
    asking: Set<u64>,
) -> Seq<CardV>
    decreases threads.len(),
{
    if threads.len() == 0 {
        Seq::empty()
    } else {
        let s = thread_blocks(
            threads.drop_last(),
            file,
            editing,
            rows,
            width,
            theme,
            collapsed,
            asking,
        );
        let t = threads.last();
        if same_file(t.anchor.file@, file) && editing != Some(t.id) {
            s.push(
                thread_block(t, rows, width, theme, collapsed.contains(t.id), asking.contains(t.id)),
            )
        } else {
            s
        }
    }
}

fn title_of(t: &Thread, lost: bool, asking: bool) -> (r: Vec<Span>)
    ensures
        deep(r@) == thread_title(*t, lost, asking),
{
    broadcast use group_deep;

    let label: String = range_label("note", t.anchor.start, t.anchor.end);
    let mut title: Vec<Span> = Vec::new();
    title.push(Span::styled(concat3(" ", label.as_str(), " "), title_style()));
    if t.turns.len() > 1 {
        let n: String = decimal_of(t.turns.len() as u64);
        title.push(Span::styled(concat3("· ", n.as_str(), " turns "), dim_style()));
    }
    if asking {
        title.push(Span::styled("· asking… ".to_owned(), badge_style(ThreadState::Sent)));
    } else if t.state != ThreadState::Draft {
        title.push(Span::styled(concat3("· ", t.state.badge(), " "), badge_style(t.state)));
    }
    if lost {
        title.push(Span::styled("· anchor lost ".to_owned(), Style::new().fg(Color::Red)));
    }
    assert(deep(title@) =~= thread_title(*t, lost, asking));
    title
}

fn cards_of_threads(
    threads: &Vec<Thread>,
    file: &str,
    editing: Option<u64>,
    built: &DiffDoc,
    width: usize,
    theme: Theme,
    collapsed: &HashSet<u64>,
    asking: &HashSet<u64>,
) -> (r: Vec<Card>)
    requires
        built.wf(),
    ensures
        deep(r@) == thread_blocks(
            threads@,
            file@,
            editing,
            built.model(),
            width as int,
            theme,
            collapsed@,
            asking@,
        ),
{
    broadcast use {group_deep, group_hash_axioms};

    let mut out: Vec<Card> = Vec::new();
    let mut i: usize = 0;
    while i < threads.len()
        invariant
            i <= threads@.len(),
            built.wf(),
            deep(out@) == thread_blocks(
                threads@.take(i as int),
                file@,
                editing,
                built.model(),
                width as int,
                theme,
                collapsed@,
                asking@,
            ),
        decreases threads@.len() - i,
    {
        assert(threads@.take(i + 1).drop_last() =~= threads@.take(i as int));
        let t: &Thread = &threads[i];
        let other: bool = match editing {
            Some(id) => id != t.id,
            None => true,
        };
        if is_same_file(t.anchor.file.as_str(), file) && other {
            let (anchor, lost) = anchor_of(built, t.anchor.end);
            let title: Vec<Span> = title_of(t, lost, asking.contains(&t.id));
            let lines: Vec<Line> = thread_card(title, t, width, theme, collapsed.contains(&t.id));
            let c = Card { anchor, lines, kind: CardKind::Thread(t.id) };
            assert(c.deep_view() == thread_block(
                *t,
                built.model(),
                width as int,
                theme,
                collapsed@.contains(t.id),
                asking@.contains(t.id),
            ));
            out.push(c);
        }
        i += 1;
    }
    out
}

// ---- the box being written in --------------------------------------------------------

/// What the box will do with its text.
#[derive(Debug, Clone, Copy, PartialEq, Eq, Structural)]
pub enum Target {
    /// Open a conversation.
    New,
    /// Rewrite a turn that has not been sent.
    Edit { id: u64, turn: usize },
    /// Add to a conversation.
    Reply(u64),
}

/// What the box says that it will do.
pub open spec fn target_words(target: Option<Target>) -> Seq<char> {
    match target {
        Some(Target::Edit { .. }) => "edit note"@,
        Some(Target::Reply(_)) => "reply"@,
        _ => "new note"@,
    }
}

/// The box as a card, and where it hangs.
pub open spec fn composer_block(
    start: u32,
    end: u32,
    target: Option<Target>,
    input: AreaV,
    rows: Seq<RowV>,
    width: int,
    theme: Theme,
) -> CardV {
    let label = range_words(target_words(target), start, end);
    CardV {
        anchor: anchor_place(rows, end).0,
        lines: titled_box(
            seq![span(cut_tail(" "@ + label + " "@, (box_width(width) - 3) as nat), title_style())],
            composer_rows(input, box_width(width) - 4),
            width,
            theme,
            true,
        ),
        kind: CardKind::Composer,
    }
}

/// A box that is open: where it hangs and what is in it.
pub struct Boxed<'a> {
    pub start: u32,
    pub end: u32,
    pub target: Option<Target>,
    pub input: &'a TextArea,
}

fn card_of_composer(b: &Boxed, built: &DiffDoc, width: usize, theme: Theme) -> (r: Card)
    requires
        built.wf(),
        b.input.wf(),
    ensures
        r.deep_view() == composer_block(
            b.start,
            b.end,
            b.target,
            b.input.model(),
            built.model(),
            width as int,
            theme,
        ),
{
    let prefix: &str = match b.target {
        Some(Target::Edit { .. }) => "edit note",
        Some(Target::Reply(_)) => "reply",
        _ => "new note",
    };
    let (anchor, _) = anchor_of(built, b.end);
    let label: String = range_label(prefix, b.start, b.end);
    Card {
        anchor,
        lines: composer_card(label.as_str(), b.input, width, theme),
        kind: CardKind::Composer,
    }
}

// ---- the document ------------------------------------------------------------------

/// The line numbers of commented lines, in the accent colour.
pub open spec fn gutters(lines: Seq<LineV>, cards: Seq<CardV>, rows: Seq<RowV>) -> Seq<LineV>
    decreases cards.len(),
{
    if cards.len() == 0 {
        lines
    } else {
        let l = gutters(lines, cards.drop_last(), rows);
        if cards.last().anchor > 0 {
            accented(l, cards.last().anchor - 1, rows)
        } else {
            l
        }
    }
}

fn accent_all(lines: &mut Vec<Line>, cards: &Vec<Card>, built: &DiffDoc)
    requires
        built.wf(),
    ensures
        deep(final(lines)@) == gutters(deep(old(lines)@), deep(cards@), built.model()),
        final(lines)@.len() == old(lines)@.len(),
{
    broadcast use group_deep;

    let ghost l0 = deep(lines@);
    let ghost c = deep(cards@);
    let mut i: usize = 0;
    while i < cards.len()
        invariant
            i <= cards@.len(),
            built.wf(),
            c == deep(cards@),
            lines@.len() == old(lines)@.len(),
            deep(lines@) == gutters(l0, c.take(i as int), built.model()),
        decreases cards@.len() - i,
    {
        assert(c.take(i + 1).drop_last() =~= c.take(i as int));
        assert(c[i as int] == cards@[i as int].deep_view());
        if cards[i].anchor > 0 {
            accent_gutter(lines, cards[i].anchor - 1, built);
        }
        i += 1;
    }
}

/// The line that says how much was cut.
pub open spec fn cut_notice(dropped: nat) -> LineV {
    LineV {
        spans: seq![
            span(
                "… diff truncated ("@ + decimal(dropped) + " more lines)"@,
                Style { fg: Some(Color::DarkGray), dim: true, ..Style::plain() },
            ),
        ],
        style: Style::plain(),
    }
}

/// The document and its bookkeeping.
#[verifier::ext_equal]
pub struct PageV {
    pub doc: Seq<LineV>,
    pub card_lines: Seq<usize>,
    pub card_starts: Seq<(u64, usize, usize)>,
    pub composer_span: Option<(usize, usize)>,
}

/// The first lines of the text.
pub open spec fn cut_text(text: Seq<LineV>) -> Seq<LineV> {
    if text.len() > MAX_LINES {
        text.take(MAX_LINES as int)
    } else {
        text
    }
}

/// The text, cut, with the cards in it. The notice below a cut text counts as
/// a card's line, for it belongs to no line of the source.
pub open spec fn page(text: Seq<LineV>, cards: Seq<CardV>, rows: Seq<RowV>) -> PageV {
    let base = gutters(cut_text(text), cards, rows);
    let c = by_anchor(clamped_cards(cards, base.len() as int));
    let doc = spliced(base, c);
    if text.len() > MAX_LINES {
        PageV {
            doc: doc.push(cut_notice((text.len() - MAX_LINES) as nat)),
            card_lines: lines_of_cards(c).push(doc.len() as usize),
            card_starts: starts_of_cards(c),
            composer_span: span_of_composer(c),
        }
    } else {
        PageV {
            doc,
            card_lines: lines_of_cards(c),
            card_starts: starts_of_cards(c),
            composer_span: span_of_composer(c),
        }
    }
}

impl Spliced {
    pub open spec fn model(self) -> PageV {
        PageV {
            doc: deep(self.doc@),
            card_lines: self.card_lines@,
            card_starts: self.card_starts@,
            composer_span: self.composer_span,
        }
    }

    /// The card lines rise, and the blocks end within the document.
    pub open spec fn wf(self) -> bool {
        &&& rising(self.card_lines@)
        &&& forall|i: int|
            0 <= i < self.card_lines@.len() ==> (#[trigger] self.card_lines@[i]) < self.doc@.len()
        &&& forall|i: int|
            0 <= i < self.card_starts@.len() ==> (#[trigger] self.card_starts@[i]).1
                + self.card_starts@[i].2 <= self.doc@.len()
        &&& self.composer_span matches Some(s) ==> s.0 + s.1 <= self.doc@.len()
    }
}

proof fn lemma_blocks_within(base: Seq<LineV>, c: Seq<CardV>)
    requires
        crate::splice::ascending(c),
        forall|i: int| 0 <= i < c.len() ==> 0 <= (#[trigger] c[i]).anchor <= base.len(),
        base.len() + total_lines(c) <= usize::MAX,
    ensures
        forall|i: int|
            0 <= i < starts_of_cards(c).len() ==> (#[trigger] starts_of_cards(c)[i]).1
                + starts_of_cards(c)[i].2 <= base.len() + total_lines(c),
        span_of_composer(c) matches Some(s) ==> s.0 + s.1 <= base.len() + total_lines(c),
        total_lines(c) >= 0,
    decreases c.len(),
{
    law_card_lines_rise(base, c);
    if c.len() > 0 {
        let init = c.drop_last();
        assert forall|i: int, j: int| 0 <= i < j < init.len() implies (#[trigger] init[i]).anchor <= (
        #[trigger] init[j]).anchor by {
            assert(c[i].anchor <= c[j].anchor);
        }
        assert forall|i: int| 0 <= i < init.len() implies 0 <= (#[trigger] init[i]).anchor
            <= base.len() by {
            assert(init[i] == c[i]);
        }
        lemma_blocks_within(base, init);
        assert(0 <= c[c.len() - 1].anchor <= base.len());
        let s = starts_of_cards(c);
        let s0 = starts_of_cards(init);
        assert forall|i: int| 0 <= i < s.len() implies (#[trigger] s[i]).1 + s[i].2 <= base.len()
            + total_lines(c) by {
            if i < s0.len() {
                assert(s[i] == s0[i]);
            }
        }
    }
}

proof fn lemma_gutters_len(lines: Seq<LineV>, cards: Seq<CardV>, rows: Seq<RowV>)
    ensures
        gutters(lines, cards, rows).len() == lines.len(),
    decreases cards.len(),
{
    if cards.len() > 0 {
        lemma_gutters_len(lines, cards.drop_last(), rows);
    }
}

fn page_of(built: &DiffDoc, cards: Vec<Card>) -> (r: Spliced)
    requires
        built.wf(),
    ensures
        r.model() == page(deep(built.text@), deep(cards@), built.model()),
        r.wf(),
{
    broadcast use group_deep;

    let ghost text = deep(built.text@);
    let ghost cv = deep(cards@);
    let mut doc: Vec<Line> = copy_lines(&built.text);
    assert(doc@.len() == deep(doc@).len());
    let total: usize = doc.len();
    if total > MAX_LINES {
        doc.truncate(MAX_LINES);
    }
    assert(deep(doc@) =~= cut_text(text));
    accent_all(&mut doc, &cards, built);
    let ghost base = gutters(cut_text(text), cv, built.model());
    let ghost cap = base.len() as int;
    let ghost c = by_anchor(clamped_cards(cv, cap));
    assert(doc@.len() == deep(doc@).len());
    assert(cap == doc@.len());
    let mut r: Spliced = splice_cards(doc, cards);
    let n: usize = r.doc.len();
    proof {
        lemma_clamped_within(cv, cap);
        lemma_by_anchor(clamped_cards(cv, cap), cap);
        law_card_lines_rise(base, c);
        lemma_blocks_within(base, c);
    }
    if total > MAX_LINES {
        let words: String = concat3(
            "… diff truncated (",
            decimal_of((total - MAX_LINES) as u64).as_str(),
            " more lines)",
        );
        let mut spans: Vec<Span> = Vec::new();
        spans.push(Span::styled(words, Style::new().fg(Color::DarkGray).dim()));
        let notice: Line = Line { spans, style: Style::new() };
        assert(notice.deep_view() =~= cut_notice((total - MAX_LINES) as nat));
        let ghost lines0 = r.card_lines@;
        r.card_lines.push(n);
        r.doc.push(notice);
        proof {
            assert(rising(r.card_lines@)) by {
                assert forall|i: int, j: int| 0 <= i < j < r.card_lines@.len() implies r.card_lines@[i]
                    < r.card_lines@[j] by {
                    if j == lines0.len() {
                        assert(lines0[i] < n);
                    }
                }
            }
            assert forall|i: int| 0 <= i < r.card_lines@.len() implies (#[trigger] r.card_lines@[i])
                < r.doc@.len() by {
                if i < lines0.len() {
                    assert(lines0[i] < n);
                }
            }
        }
    }
    r
}

/// What the pane shows around the diff.
pub struct Around<'a> {
    /// The file on screen.
    pub file: &'a str,
    pub threads: &'a Vec<Thread>,
    /// Conversations shown as their newest turn only.
    pub collapsed: &'a HashSet<u64>,
    /// Conversations that an agent is being asked about.
    pub asking: &'a HashSet<u64>,
    /// The conversation being rewritten.
    pub editing: Option<u64>,
    pub composer: Option<Boxed<'a>>,
}

/// All cards of the pane: the conversations', then the box.
pub open spec fn all_blocks(a: Around, rows: Seq<RowV>, width: int, theme: Theme) -> Seq<CardV> {
    let s = thread_blocks(
        a.threads@,
        a.file@,
        a.editing,
        rows,
        width,
        theme,
        a.collapsed@,
        a.asking@,
    );
    match a.composer {
        Some(b) => s.push(composer_block(b.start, b.end, b.target, b.input.model(), rows, width, theme)),
        None => s,
    }
}

/// The document of a diff.
pub fn sync_doc(built: &DiffDoc, around: Option<&Around>, width: usize, theme: Theme) -> (r: Spliced)
    requires
        built.wf(),
        around matches Some(a) ==> (a.composer matches Some(b) ==> b.input.wf()),
    ensures
        r.model() == page(
            deep(built.text@),
            match around {
                Some(a) => all_blocks(*a, built.model(), width as int, theme),
                None => Seq::empty(),
            },
            built.model(),
        ),
        r.wf(),
{
    broadcast use group_deep;

    match around {
        None => page_of(built, Vec::new()),
        Some(a) => {
            let mut cards: Vec<Card> = cards_of_threads(
                a.threads,
                a.file,
                a.editing,
                built,
                width,
                theme,
                a.collapsed,
                a.asking,
            );
            match &a.composer {
                Some(b) => {
                    cards.push(card_of_composer(b, built, width, theme));
                },
                None => {},
            }
            page_of(built, cards)
        },
    }
}

// ---- laws ----------------------------------------------------------------------------

/// Whatever cards there are, a line of the document that belongs to none is the
/// line of the cut text that the way back names, but for the colour of its line
/// number.
pub proof fn law_page_keeps_the_text(text: Seq<LineV>, cards: Seq<CardV>, rows: Seq<RowV>, line: int)
    requires
        forall|i: int| 0 <= i < cards.len() ==> 0 <= (#[trigger] cards[i]).anchor,
        page(text, cards, rows).doc.len() <= usize::MAX,
        0 <= line < page(text, cards, rows).doc.len(),
        !page(text, cards, rows).card_lines.contains(line as usize),
    ensures
        ({
            let p = page(text, cards, rows);
            let k = line - crate::splice::count_below(p.card_lines, line);
            &&& 0 <= k < cut_text(text).len()
            &&& p.doc[line] == gutters(cut_text(text), cards, rows)[k]
        }),
{
    let base = gutters(cut_text(text), cards, rows);
    let cap = base.len() as int;
    let c = by_anchor(clamped_cards(cards, cap));
    let p = page(text, cards, rows);
    lemma_gutters_len(cut_text(text), cards, rows);
    lemma_clamped_within(cards, cap);
    lemma_by_anchor(clamped_cards(cards, cap), cap);
    assert(spliced(base, c).len() <= usize::MAX);
    crate::splice::lemma_spliced_len(base, c);
    let n = spliced(base, c).len();
    if text.len() > MAX_LINES {
        assert(p.card_lines == lines_of_cards(c).push(n as usize));
        assert(p.card_lines[lines_of_cards(c).len() as int] == n as usize);
        assert(line != n);
        assert(!lines_of_cards(c).contains(line as usize)) by {
            if lines_of_cards(c).contains(line as usize) {
                let j = choose|j: int|
                    0 <= j < lines_of_cards(c).len() && lines_of_cards(c)[j] == line as usize;
                assert(p.card_lines[j] == line as usize);
            }
        }
        assert(p.card_lines.drop_last() =~= lines_of_cards(c));
    }
    crate::splice::law_cards_leave_the_document_alone(base, c, line);
}

} // verus!
