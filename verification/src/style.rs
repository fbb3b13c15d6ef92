//! Styled text, as the screen shows it.

use vstd::prelude::*;

verus! {

/// A colour of the terminal.
#[derive(Debug, Clone, Copy, PartialEq, Eq, Structural)]
pub enum Colour {
    Black,
    Cyan,
    DarkGray,
    Green,
    Red,
    Yellow,
}

/// How text is shown; without a colour it has the terminal's own.
#[derive(Debug, Clone, Copy, PartialEq, Eq)]
pub struct Style {
    pub fg: Option<Colour>,
    pub bg: Option<Colour>,
    pub bold: bool,
}

impl Style {
    /// The terminal's own style.
    pub open spec fn default_style() -> Style {
        Style { fg: None, bg: None, bold: false }
    }

    /// Text in colour `c`.
    pub open spec fn coloured(c: Colour) -> Style {
        Style { fg: Some(c), bg: None, bold: false }
    }

    /// Bold text in colour `c`.
    pub open spec fn emphasised(c: Colour) -> Style {
        Style { fg: Some(c), bg: None, bold: true }
    }

    /// The terminal's own style.
    pub fn plain() -> (r: Style)
        ensures
            r == Style::default_style(),
    {
        Style { fg: None, bg: None, bold: false }
    }

    /// Text in colour `c`.
    pub fn colour(c: Colour) -> (r: Style)
        ensures
            r == Style::coloured(c),
    {
        Style { fg: Some(c), bg: None, bold: false }
    }

    /// Bold text in colour `c`.
    pub fn bold(c: Colour) -> (r: Style)
        ensures
            r == Style::emphasised(c),
    {
        Style { fg: Some(c), bg: None, bold: true }
    }
}

/// A run of text in one style.
#[derive(Debug, Clone, PartialEq, Eq)]
pub struct Span {
    pub text: String,
    pub style: Style,
}

/// The view of a span.
#[verifier::ext_equal]
pub struct SpanView {
    pub text: Seq<char>,
    pub style: Style,
}

impl View for Span {
    type V = SpanView;

    open spec fn view(&self) -> SpanView {
        SpanView { text: self.text@, style: self.style }
    }
}

/// A line of spans.
#[derive(Debug, Clone, PartialEq, Eq)]
pub struct Line {
    pub spans: Vec<Span>,
}

impl View for Line {
    type V = Seq<SpanView>;

    open spec fn view(&self) -> Seq<SpanView> {
        Seq::new(self.spans@.len(), |i: int| self.spans@[i]@)
    }
}

/// The views of some lines.
pub open spec fn lines_view(lines: Seq<Line>) -> Seq<Seq<SpanView>> {
    Seq::new(lines.len(), |i: int| lines[i]@)
}

/// `text` in `style`.
pub open spec fn span_of(text: Seq<char>, style: Style) -> SpanView {
    SpanView { text, style }
}

/// `text` in the terminal's own style.
pub open spec fn raw_span(text: Seq<char>) -> SpanView {
    SpanView { text, style: Style::default_style() }
}

impl Span {
    /// `text` in `style`.
    pub fn styled(text: &str, style: Style) -> (r: Span)
        ensures
            r@ == span_of(text@, style),
    {
        Span { text: text.to_owned(), style }
    }

    /// `text` in the terminal's own style.
    pub fn raw(text: &str) -> (r: Span)
        ensures
            r@ == raw_span(text@),
    {
        Span { text: text.to_owned(), style: Style::plain() }
    }
}

impl Line {
    /// An empty line.
    pub fn empty() -> (r: Line)
        ensures
            r@ == Seq::<SpanView>::empty(),
    {
        let r = Line { spans: Vec::new() };
        assert(r@ =~= Seq::<SpanView>::empty());
        r
    }

    /// A line of one span.
    pub fn of(span: Span) -> (r: Line)
        ensures
            r@ == seq![span@],
    {
        let mut spans: Vec<Span> = Vec::new();
        spans.push(span);
        let r = Line { spans };
        assert(r@ =~= seq![span@]);
        r
    }

    /// A line of two spans.
    pub fn of_two(first: Span, second: Span) -> (r: Line)
        ensures
            r@ == seq![first@, second@],
    {
        let mut spans: Vec<Span> = Vec::new();
        spans.push(first);
        spans.push(second);
        let r = Line { spans };
        assert(r@ =~= seq![first@, second@]);
        r
    }

    /// With one span more.
    pub fn with(self, span: Span) -> (r: Line)
        ensures
            r@ == self@.push(span@),
    {
        let ghost before = self@;
        let mut spans = self.spans;
        spans.push(span);
        let r = Line { spans };
        assert(r@ =~= before.push(span@));
        r
    }
}

/// A part of the screen.
#[derive(Debug, Clone, Copy, PartialEq, Eq, Structural)]
pub struct Rect {
    pub x: u16,
    pub y: u16,
    pub width: u16,
    pub height: u16,
}

impl Rect {
    /// The right and the lower end have coordinates.
    pub open spec fn wf(self) -> bool {
        self.x + self.width <= u16::MAX && self.y + self.height <= u16::MAX
    }
}

/// Adds a line to a list.
pub fn add_line(lines: &mut Vec<Line>, line: Line)
    ensures
        lines_view(final(lines)@) == lines_view(old(lines)@).push(line@),
{
    let ghost before = lines_view(lines@);
    lines.push(line);
    assert(lines_view(lines@) =~= before.push(line@));
}

/// Adds some lines to a list.
pub fn add_lines(lines: &mut Vec<Line>, more: Vec<Line>)
    ensures
        lines_view(final(lines)@) == lines_view(old(lines)@) + lines_view(more@),
{
    let ghost before = lines_view(lines@);
    let ghost added = lines_view(more@);
    let mut more = more;
    lines.append(&mut more);
    assert(lines_view(lines@) =~= before + added);
}

/// `head` and `tail` put together.
pub(crate) fn concat(head: &str, tail: &str) -> (r: String)
    ensures
        r@ == head@ + tail@,
{
    let mut out = head.to_owned();
    out.append(tail);
    out
}

/// Text without a style of its own is shown in the terminal's, and a style says no
/// more than the colour and whether it is bold.
pub proof fn lemma_styles(text: Seq<char>, style: Style, c: Colour)
    ensures
        raw_span(text) == (SpanView { text, style: Style { fg: None, bg: None, bold: false } }),
        span_of(text, style) == (SpanView { text, style }),
        Style::coloured(c) == (Style { fg: Some(c), bg: None, bold: false }),
        Style::emphasised(c) == (Style { fg: Some(c), bg: None, bold: true }),
{
}

} // verus!
