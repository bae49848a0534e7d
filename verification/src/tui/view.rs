//! What the panels show: styled texts in lines.

use vstd::prelude::*;
use vstd::string::*;

use crate::text::{chars_of, concat2, take_chars, take_text};
use crate::types::SessionState;

verus! {

/// A colour of the terminal.
#[derive(Clone, Copy, Debug, PartialEq, Eq, Structural)]
pub enum Color {
    Red,
    Green,
    Yellow,
    Blue,
    Cyan,
    Gray,
    DarkGray,
    White,
}

/// The look of a text; without a colour, the terminal's own.
#[derive(Clone, Copy, Debug, PartialEq, Eq, Structural)]
pub struct Style {
    pub fg: Option<Color>,
    pub bold: bool,
}

/// The look of a plain text.
pub open spec fn plain() -> Style {
    Style { fg: None, bold: false }
}

/// The look of a text in a colour.
pub open spec fn colored(c: Color) -> Style {
    Style { fg: Some(c), bold: false }
}

/// The look of a bold text in a colour.
pub open spec fn bold(c: Color) -> Style {
    Style { fg: Some(c), bold: true }
}

/// A text with a look.
pub struct Span {
    pub text: String,
    pub style: Style,
}

/// A text with a look as values.
#[verifier::ext_equal]
pub struct SpanView {
    pub text: Seq<char>,
    pub style: Style,
}

impl View for Span {
    type V = SpanView;

    open spec fn view(&self) -> SpanView {
        SpanView { text: self.text@, style: self.style }
    }
}

/// The texts of a line.
pub open spec fn spans_of(spans: Seq<Span>) -> Seq<SpanView> {
    Seq::new(spans.len(), |k: int| spans[k]@)
}

/// The texts of lines.
pub open spec fn lines_view(lines: Seq<Vec<Span>>) -> Seq<Seq<SpanView>> {
    Seq::new(lines.len(), |k: int| spans_of(lines[k]@))
}

/// A text with a look.
pub open spec fn styled(text: Seq<char>, style: Style) -> SpanView {
    SpanView { text, style }
}

/// What is read in a line.
pub open spec fn line_text(spans: Seq<SpanView>) -> Seq<char>
    decreases spans.len(),
{
    if spans.len() == 0 {
        Seq::empty()
    } else {
        line_text(spans.drop_last()) + spans.last().text
    }
}

/// A text in the terminal's own colour.
pub fn plain_span(text: String) -> (r: Span)
    ensures
        r@ == styled(text@, plain()),
{
    Span { text, style: Style { fg: None, bold: false } }
}

/// A text in a colour.
pub fn colored_span(text: String, c: Color) -> (r: Span)
    ensures
        r@ == styled(text@, colored(c)),
{
    Span { text, style: Style { fg: Some(c), bold: false } }
}

/// A bold text in a colour.
pub fn bold_span(text: String, c: Color) -> (r: Span)
    ensures
        r@ == styled(text@, bold(c)),
{
    Span { text, style: Style { fg: Some(c), bold: true } }
}

/// The colour of a state.
pub open spec fn state_color(s: SessionState) -> Color {
    match s {
        SessionState::Busy => Color::Yellow,
        SessionState::Idle => Color::Green,
        SessionState::WaitingForPermission => Color::Red,
        SessionState::WaitingForInput => Color::Yellow,
        SessionState::Error => Color::Red,
        SessionState::Compacting => Color::Blue,
        SessionState::Completed => Color::Green,
        SessionState::Disconnected => Color::Gray,
        SessionState::Unknown => Color::Gray,
    }
}

/// The colour of a state.
pub fn color_of_state(s: &SessionState) -> (r: Color)
    ensures
        r == state_color(*s),
{
    match s {
        SessionState::Busy => Color::Yellow,
        SessionState::Idle => Color::Green,
        SessionState::WaitingForPermission => Color::Red,
        SessionState::WaitingForInput => Color::Yellow,
        SessionState::Error => Color::Red,
        SessionState::Compacting => Color::Blue,
        SessionState::Completed => Color::Green,
        SessionState::Disconnected => Color::Gray,
        SessionState::Unknown => Color::Gray,
    }
}

/// A text cut to at most `max` characters, the last of which then is an
/// ellipsis.
pub open spec fn shortened(s: Seq<char>, max: nat) -> Seq<char> {
    if max == 0 {
        Seq::empty()
    } else if s.len() <= max {
        s
    } else {
        s.take(max - 1) + "…"@
    }
}

/// Cuts a text to at most `max` characters.
pub fn truncate(s: &str, max: usize) -> (r: String)
    ensures
        r@ == shortened(s@, max as nat),
{
    if max == 0 {
        return String::new();
    }
    if chars_of(s).len() <= max {
        s.to_string()
    } else {
        let head = take_text(s, max - 1);
        assert(take_chars(s@, (max - 1) as nat) =~= s@.take(max - 1));
        concat2(head.as_str(), "…")
    }
}

/// A shortened text is no longer than asked for.
pub proof fn law_shortened_fits(s: Seq<char>, max: nat)
    ensures
        shortened(s, max).len() <= max,
        s.len() <= max ==> shortened(s, max) == s,
{
    reveal_strlit("…");
    if max == 0 && s.len() == 0 {
        assert(s =~= Seq::<char>::empty());
    }
}

/// The colours of the states: red for those that need somebody, green for those
/// that are at rest, yellow for those at work or waiting for input, blue for
/// compacting and grey for those of which nothing is known.
pub proof fn law_colors_by_state(s: SessionState)
    ensures
        state_color(s) == Color::Red <==> s == SessionState::WaitingForPermission || s
            == SessionState::Error,
        state_color(s) == Color::Green <==> s == SessionState::Idle || s == SessionState::Completed,
        state_color(s) == Color::Yellow <==> s == SessionState::Busy || s
            == SessionState::WaitingForInput,
        state_color(s) == Color::Blue <==> s == SessionState::Compacting,
        state_color(s) == Color::Gray <==> s == SessionState::Disconnected || s
            == SessionState::Unknown,
{
}

/// The text of a line is that of its spans one after the other.
pub proof fn law_line_reads_through_its_spans(a: Seq<SpanView>, b: Seq<SpanView>)
    ensures
        line_text(Seq::empty()).len() == 0,
        b.len() == 1 ==> line_text(b) == b[0].text,
        line_text(a + b) == line_text(a) + line_text(b),
    decreases b.len(),
{
    if b.len() == 0 {
        assert(a + b =~= a);
        assert(line_text(a + b) =~= line_text(a) + line_text(b));
    } else {
        law_line_reads_through_its_spans(a, b.drop_last());
        assert((a + b).drop_last() =~= a + b.drop_last());
        assert((a + b).last() == b.last());
        assert(line_text(a + b) =~= line_text(a) + line_text(b));
        if b.len() == 1 {
            assert(b.drop_last() =~= Seq::<SpanView>::empty());
            assert(line_text(b) =~= b[0].text);
        }
    }
}

/// A text that fits stands as it is; a longer one is cut and ends in an ellipsis
/// that takes the last place.
pub proof fn law_longer_texts_are_cut(s: Seq<char>, max: nat)
    requires
        max > 0,
    ensures
        s.len() <= max ==> shortened(s, max) == s,
        s.len() > max ==> shortened(s, max).len() == max && shortened(s, max).last() == '…'
            && shortened(s, max).drop_last() == s.take(max - 1),
{
    reveal_strlit("…");
    if s.len() > max {
        assert(shortened(s, max).drop_last() =~= s.take(max - 1));
    }
}

} // verus!
