//! Styled text, independent of any terminal library.

use vstd::prelude::*;

use crate::text::{deep, group_deep};

verus! {

/// Red, green, blue.
pub type Rgb = (u8, u8, u8);

#[derive(Debug, Clone, Copy, PartialEq, Eq, Structural)]
pub enum Color {
    Black,
    Red,
    Green,
    Yellow,
    Blue,
    Magenta,
    Cyan,
    Gray,
    DarkGray,
    White,
    Rgb(u8, u8, u8),
}

/// Colours and weight; `None` leaves what is below showing.
#[derive(Debug, Clone, Copy, PartialEq, Eq, Structural)]
pub struct Style {
    pub fg: Option<Color>,
    pub bg: Option<Color>,
    pub bold: bool,
    pub dim: bool,
    pub italic: bool,
    pub underlined: bool,
    pub reversed: bool,
}

impl Style {
    pub open spec fn plain() -> Style {
        Style {
            fg: None,
            bg: None,
            bold: false,
            dim: false,
            italic: false,
            underlined: false,
            reversed: false,
        }
    }

    pub fn new() -> (r: Style)
        ensures
            r == Style::plain(),
    {
        Style {
            fg: None,
            bg: None,
            bold: false,
            dim: false,
            italic: false,
            underlined: false,
            reversed: false,
        }
    }

    pub fn fg(self, c: Color) -> (r: Style)
        ensures
            r == (Style { fg: Some(c), ..self }),
    {
        Style { fg: Some(c), ..self }
    }

    pub fn bg(self, c: Color) -> (r: Style)
        ensures
            r == (Style { bg: Some(c), ..self }),
    {
        Style { bg: Some(c), ..self }
    }

    pub fn bold(self) -> (r: Style)
        ensures
            r == (Style { bold: true, ..self }),
    {
        Style { bold: true, ..self }
    }

    pub fn dim(self) -> (r: Style)
        ensures
            r == (Style { dim: true, ..self }),
    {
        Style { dim: true, ..self }
    }

    pub fn reversed(self) -> (r: Style)
        ensures
            r == (Style { reversed: true, ..self }),
    {
        Style { reversed: true, ..self }
    }
}

impl Default for Style {
    fn default() -> (r: Style)
        ensures
            r == Style::plain(),
    {
        Style::new()
    }
}

/// A colour from its components.
pub open spec fn rgb_color(c: Rgb) -> Color {
    Color::Rgb(c.0, c.1, c.2)
}

pub fn rgb(c: Rgb) -> (r: Color)
    ensures
        r == rgb_color(c),
{
    Color::Rgb(c.0, c.1, c.2)
}

/// A piece of text in one style.
#[derive(Debug, Clone, PartialEq, Eq)]
pub struct Span {
    pub content: String,
    pub style: Style,
}

#[verifier::ext_equal]
pub struct SpanV {
    pub content: Seq<char>,
    pub style: Style,
}

impl DeepView for Span {
    type V = SpanV;

    open spec fn deep_view(&self) -> SpanV {
        SpanV { content: self.content@, style: self.style }
    }
}

pub open spec fn span(content: Seq<char>, style: Style) -> SpanV {
    SpanV { content, style }
}

impl Span {
    pub fn styled(content: String, style: Style) -> (r: Span)
        ensures
            r.deep_view() == span(content@, style),
    {
        Span { content, style }
    }

    pub fn raw(content: String) -> (r: Span)
        ensures
            r.deep_view() == span(content@, Style::plain()),
    {
        Span { content, style: Style::new() }
    }

    pub fn copy(&self) -> (r: Span)
        ensures
            r.deep_view() == self.deep_view(),
    {
        Span { content: self.content.clone(), style: self.style }
    }
}

/// One line: spans over a style of its own.
#[derive(Debug, Clone, PartialEq, Eq)]
pub struct Line {
    pub spans: Vec<Span>,
    pub style: Style,
}

#[verifier::ext_equal]
pub struct LineV {
    pub spans: Seq<SpanV>,
    pub style: Style,
}

impl DeepView for Line {
    type V = LineV;

    open spec fn deep_view(&self) -> LineV {
        LineV { spans: deep(self.spans@), style: self.style }
    }
}

pub open spec fn line(spans: Seq<SpanV>, style: Style) -> LineV {
    LineV { spans, style }
}

/// The characters of a row of spans.
pub open spec fn spans_text(spans: Seq<SpanV>) -> Seq<char>
    decreases spans.len(),
{
    if spans.len() == 0 {
        Seq::empty()
    } else {
        spans_text(spans.drop_last()) + spans.last().content
    }
}

/// The characters of a row of spans, each with its style.
pub open spec fn painted(spans: Seq<SpanV>) -> Seq<(char, Style)>
    decreases spans.len(),
{
    if spans.len() == 0 {
        Seq::empty()
    } else {
        painted(spans.drop_last()) + Seq::new(
            spans.last().content.len(),
            |i: int| (spans.last().content[i], spans.last().style),
        )
    }
}

pub fn copy_spans(spans: &Vec<Span>) -> (r: Vec<Span>)
    ensures
        deep(r@) == deep(spans@),
{
    broadcast use group_deep;

    let mut out: Vec<Span> = Vec::new();
    let mut i: usize = 0;
    while i < spans.len()
        invariant
            i <= spans@.len(),
            deep(out@) == deep(spans@).take(i as int),
        decreases spans@.len() - i,
    {
        out.push(spans[i].copy());
        assert(deep(spans@).take(i + 1) =~= deep(spans@).take(i as int).push(
            spans@[i as int].deep_view(),
        ));
        i += 1;
    }
    out
}

impl Line {
    pub fn from_spans(spans: Vec<Span>, style: Style) -> (r: Line)
        ensures
            r.deep_view() == line(deep(spans@), style),
    {
        Line { spans, style }
    }

    /// A line of one unstyled span.
    pub fn from_text(text: String) -> (r: Line)
        ensures
            r.deep_view() == line(seq![span(text@, Style::plain())], Style::plain()),
    {
        broadcast use group_deep;

        let mut spans: Vec<Span> = Vec::new();
        spans.push(Span::raw(text));
        assert(deep(spans@) =~= seq![span(text@, Style::plain())]);
        Line { spans, style: Style::new() }
    }

    pub fn copy(&self) -> (r: Line)
        ensures
            r.deep_view() == self.deep_view(),
    {
        Line { spans: copy_spans(&self.spans), style: self.style }
    }
}

// ---- colours with a meaning ----------------------------------------------------------

/// Good: an added line, an answered thread, an idle agent.
#[verifier::allow_in_spec]
pub fn ok() -> Color
    returns
        Color::Rgb(0x5e, 0x9c, 0x63),
{
    Color::Rgb(0x5e, 0x9c, 0x63)
}

/// Bad: a removed line, a failed send, a destructive action.
#[verifier::allow_in_spec]
pub fn bad() -> Color
    returns
        Color::Rgb(0xb3, 0x5a, 0x5d),
{
    Color::Rgb(0xb3, 0x5a, 0x5d)
}

/// Attention: titles, the focused card, the user's own turns.
#[verifier::allow_in_spec]
pub fn accent() -> Color
    returns
        Color::Rgb(0xb8, 0x94, 0x5a),
{
    Color::Rgb(0xb8, 0x94, 0x5a)
}

/// In progress: a sent thread, a working agent, section headers.
#[verifier::allow_in_spec]
pub fn info() -> Color
    returns
        Color::Rgb(0x6a, 0x8f, 0xb5),
{
    Color::Rgb(0x6a, 0x8f, 0xb5)
}

} // verus!
