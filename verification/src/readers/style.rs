//! The styles that the lines of a dump are shown in, and the one call
//! that puts text into a style.
use vstd::prelude::*;

verus! {

/// The colours a style can give to text.
#[derive(Clone, Copy, PartialEq, Eq, Debug)]
pub enum Colour {
    Red,
    Green,
    Yellow,
    Blue,
    Cyan,
    White,
}

/// How a piece of text is shown on a terminal.
#[derive(Clone, Copy, PartialEq, Eq, Debug)]
pub struct Style {
    /// The colour of the text, if it has one.
    pub foreground: Option<Colour>,
    /// Whether the text is dimmed.
    pub is_dimmed: bool,
}

impl Style {
    /// The style that leaves text as it is.
    pub open spec fn plain() -> Style {
        Style { foreground: None, is_dimmed: false }
    }

    /// The style that only gives text the colour `colour`.
    pub open spec fn coloured(colour: Colour) -> Style {
        Style { foreground: Some(colour), is_dimmed: false }
    }
}

/// The style of text that is shown as it is.
pub fn default_style() -> (style: Style)
    ensures
        style == Style::plain(),
{
    Style { foreground: None, is_dimmed: false }
}

/// The style of the symbol of an enumerated field: blue.
pub fn enum_style() -> (style: Style)
    ensures
        style == Style::coloured(Colour::Blue),
{
    Style { foreground: Some(Colour::Blue), is_dimmed: false }
}

/// The style of a field shown as characters: yellow.
pub fn chars_style() -> (style: Style)
    ensures
        style == Style::coloured(Colour::Yellow),
{
    Style { foreground: Some(Colour::Yellow), is_dimmed: false }
}

/// The style of a field shown as a number: cyan.
pub fn int_style() -> (style: Style)
    ensures
        style == Style::coloured(Colour::Cyan),
{
    Style { foreground: Some(Colour::Cyan), is_dimmed: false }
}

/// The style of the name of a section: green.
pub fn title_style() -> (style: Style)
    ensures
        style == Style::coloured(Colour::Green),
{
    Style { foreground: Some(Colour::Green), is_dimmed: false }
}

/// The text that a terminal shows as `text` in `style`: what
/// `ansi_term::Style::paint` gives for them, written out as a string.
pub uninterp spec fn painted(style: Style, text: Seq<char>) -> Seq<char>;

/// `ansi_term::Style::paint`, with the result written out by its `Display`
/// impl: `text` between the escape codes that switch `style` on and off. The
/// result is a function of the style and the text alone; what the codes are
/// is left to the outside crate.
#[verifier::external_body]
pub(crate) fn paint(style: Style, text: &str) -> (out: String)
    ensures
        out@ == painted(style, text@),
{
    let foreground = match style.foreground {
        None => None,
        Some(Colour::Red) => Some(ansi_term::Colour::Red),
        Some(Colour::Green) => Some(ansi_term::Colour::Green),
        Some(Colour::Yellow) => Some(ansi_term::Colour::Yellow),
        Some(Colour::Blue) => Some(ansi_term::Colour::Blue),
        Some(Colour::Cyan) => Some(ansi_term::Colour::Cyan),
        Some(Colour::White) => Some(ansi_term::Colour::White),
    };
    let plain = ansi_term::Style::new();
    ansi_term::Style { foreground, is_dimmed: style.is_dimmed, ..plain }.paint(text).to_string()
}

} // verus!
