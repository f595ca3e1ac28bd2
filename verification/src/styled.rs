//! Text with terminal styles: the renderers produce a sequence of spans, each a
//! piece of text with a color and attributes; writing them to a terminal (with or
//! without escape codes) is left to the caller.

use vstd::prelude::*;
use crate::text::{chars_of, string_from_chars};

verus! {

/// A foreground color.
#[derive(Clone, Copy, Debug, PartialEq, Eq, Structural)]
pub enum Color {
    Default,
    Green,
    Red,
    Yellow,
    Cyan,
}

/// The style of a span: a color and the bold, dimmed and underline attributes.
#[derive(Clone, Copy, Debug, PartialEq, Eq, Structural)]
pub struct Style {
    pub color: Color,
    pub bold: bool,
    pub dimmed: bool,
    pub underline: bool,
}

/// No color, no attribute.
pub open spec fn plain() -> Style {
    Style { color: Color::Default, bold: false, dimmed: false, underline: false }
}

/// A color without attributes.
pub open spec fn colored(c: Color) -> Style {
    Style { color: c, bold: false, dimmed: false, underline: false }
}

/// A color, bold.
pub open spec fn colored_bold(c: Color) -> Style {
    Style { color: c, bold: true, dimmed: false, underline: false }
}

/// Bold without color.
pub open spec fn bold() -> Style {
    Style { color: Color::Default, bold: true, dimmed: false, underline: false }
}

/// Dimmed without color.
pub open spec fn dimmed() -> Style {
    Style { color: Color::Default, bold: false, dimmed: true, underline: false }
}

/// Bold and dimmed.
pub open spec fn bold_dimmed() -> Style {
    Style { color: Color::Default, bold: true, dimmed: true, underline: false }
}

/// Bold and underlined.
pub open spec fn bold_underline() -> Style {
    Style { color: Color::Default, bold: true, dimmed: false, underline: true }
}

impl Style {
    /// No color, no attribute.
    pub fn new_plain() -> (s: Style)
        ensures
            s == plain(),
    {
        Style { color: Color::Default, bold: false, dimmed: false, underline: false }
    }

    /// A color without attributes.
    pub fn new_colored(c: Color) -> (s: Style)
        ensures
            s == colored(c),
    {
        Style { color: c, bold: false, dimmed: false, underline: false }
    }

    /// A color, bold.
    pub fn new_colored_bold(c: Color) -> (s: Style)
        ensures
            s == colored_bold(c),
    {
        Style { color: c, bold: true, dimmed: false, underline: false }
    }

    /// Bold without color.
    pub fn new_bold() -> (s: Style)
        ensures
            s == bold(),
    {
        Style { color: Color::Default, bold: true, dimmed: false, underline: false }
    }

    /// Dimmed without color.
    pub fn new_dimmed() -> (s: Style)
        ensures
            s == dimmed(),
    {
        Style { color: Color::Default, bold: false, dimmed: true, underline: false }
    }

    /// Bold and dimmed.
    pub fn new_bold_dimmed() -> (s: Style)
        ensures
            s == bold_dimmed(),
    {
        Style { color: Color::Default, bold: true, dimmed: true, underline: false }
    }

    /// Bold and underlined.
    pub fn new_bold_underline() -> (s: Style)
        ensures
            s == bold_underline(),
    {
        Style { color: Color::Default, bold: true, dimmed: false, underline: true }
    }
}

/// A piece of text in one style.
#[derive(Clone, Debug)]
pub struct Span {
    pub text: String,
    pub style: Style,
}

/// A span as text and style.
pub type SpanView = (Seq<char>, Style);

/// Styled text: spans in order.
#[derive(Clone, Debug)]
pub struct StyledText {
    pub spans: Vec<Span>,
}

/// One span.
pub open spec fn sp(t: Seq<char>, st: Style) -> Seq<SpanView> {
    seq![(t, st)]
}

/// One span without style.
pub open spec fn pl(t: Seq<char>) -> Seq<SpanView> {
    seq![(t, plain())]
}

/// The text of the spans, styles dropped.
pub open spec fn flatten(s: Seq<SpanView>) -> Seq<char>
    decreases s.len(),
{
    if s.len() == 0 {
        seq![]
    } else {
        flatten(s.drop_last()) + s.last().0
    }
}

impl View for StyledText {
    type V = Seq<SpanView>;

    open spec fn view(&self) -> Seq<SpanView> {
        self.spans@.map_values(|s: Span| (s.text@, s.style))
    }
}

impl StyledText {
    /// No spans.
    pub fn new() -> (t: StyledText)
        ensures
            t@ == Seq::<SpanView>::empty(),
    {
        let t = StyledText { spans: Vec::new() };
        assert(t@ =~= Seq::<SpanView>::empty());
        t
    }

    /// Appends a span.
    pub fn push_chars(&mut self, text: &Vec<char>, style: Style)
        ensures
            final(self)@ == old(self)@ + sp(text@, style),
    {
        let s = Span { text: string_from_chars(text), style };
        self.spans.push(s);
        assert(final(self)@ =~= old(self)@ + sp(text@, style));
    }

    /// Appends a span.
    pub fn push_str(&mut self, text: &str, style: Style)
        ensures
            final(self)@ == old(self)@ + sp(text@, style),
    {
        let s = Span { text: text.to_owned(), style };
        self.spans.push(s);
        assert(final(self)@ =~= old(self)@ + sp(text@, style));
    }

    /// Appends an unstyled span.
    pub fn push_plain(&mut self, text: &str)
        ensures
            final(self)@ == old(self)@ + pl(text@),
    {
        self.push_str(text, Style::new_plain());
    }

    /// Appends an unstyled line break.
    pub fn push_newline(&mut self)
        ensures
            final(self)@ == old(self)@ + pl(seq!['\n']),
    {
        let nl: Vec<char> = vec!['\n'];
        assert(nl@ =~= seq!['\n']);
        self.push_chars(&nl, Style::new_plain());
    }

    /// Appends all spans of `other`.
    pub fn append(&mut self, other: StyledText)
        ensures
            final(self)@ == old(self)@ + other@,
    {
        let ghost ov = other@;
        let n = other.spans.len();
        let src = other.spans;
        assert(src@.map_values(|s: Span| (s.text@, s.style)) == ov);
        let mut k: usize = 0;
        while k < n
            invariant
                k <= n,
                n == src.len(),
                src@.map_values(|s: Span| (s.text@, s.style)) == ov,
                self@ == old(self)@ + ov.take(k as int),
            decreases n - k,
        {
            let s = Span { text: src[k].text.clone(), style: src[k].style };
            proof {
                assert(ov[k as int] == (src@[k as int].text@, src@[k as int].style));
            }
            let ghost prev = self@;
            let ghost item = (s.text@, s.style);
            self.spans.push(s);
            assert(self@ =~= prev.push(item));
            assert(ov.take(k + 1) =~= ov.take(k as int).push(ov[k as int]));
            assert(self@ =~= old(self)@ + ov.take(k + 1));
            k += 1;
        }
        assert(ov.take(n as int) =~= ov);
    }

    /// The text of the spans, styles dropped.
    pub fn plain_text(&self) -> (s: String)
        ensures
            s@ == flatten(self@),
    {
        let mut v: Vec<char> = Vec::new();
        let mut i: usize = 0;
        while i < self.spans.len()
            invariant
                i <= self.spans.len(),
                v@ == flatten(self@.take(i as int)),
            decreases self.spans.len() - i,
        {
            let c = chars_of(self.spans[i].text.as_str());
            crate::text::extend_chars(&mut v, &c);
            assert(self@.take(i + 1).drop_last() =~= self@.take(i as int));
            i += 1;
        }
        assert(self@.take(self.spans.len() as int) =~= self@);
        string_from_chars(&v)
    }
}

/// The text of spans put together is the texts put together.
pub proof fn lemma_flatten_append(a: Seq<SpanView>, b: Seq<SpanView>)
    ensures
        flatten(a + b) == flatten(a) + flatten(b),
    decreases b.len(),
{
    if b.len() == 0 {
        assert(a + b =~= a);
        assert(flatten(a) + flatten(b) =~= flatten(a));
    } else {
        lemma_flatten_append(a, b.drop_last());
        assert((a + b).drop_last() =~= a + b.drop_last());
        assert((a + b).last() == b.last());
        assert(flatten(a) + flatten(b) =~= flatten(a) + flatten(b.drop_last()) + b.last().0);
    }
}

/// The text of one span is its text.
pub proof fn lemma_flatten_one(x: SpanView)
    ensures
        flatten(seq![x]) == x.0,
{
    let s = seq![x];
    assert(s.drop_last() =~= Seq::<SpanView>::empty());
    assert(flatten(s.drop_last()) == Seq::<char>::empty());
    assert(s.last() == x);
    assert(flatten(s) == flatten(s.drop_last()) + s.last().0);
    assert(Seq::<char>::empty() + x.0 =~= x.0);
}

} // verus!
