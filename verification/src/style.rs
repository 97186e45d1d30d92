//! The style vocabulary of terminal text: colours, modifier flags, styled runs.

use vstd::prelude::*;

verus! {

/// A terminal colour: one of the sixteen named ones (eight basic ones, of
/// which `Gray` is the white of the basic eight, and their eight bright
/// variants, of which `White` is the bright white), one of the 256 indexed
/// ones, a 24-bit colour, or the terminal's default (`Reset`).
#[derive(Clone, Copy, Debug, PartialEq, Eq, Structural)]
pub enum Color {
    Reset,
    Black,
    Red,
    Green,
    Yellow,
    Blue,
    Magenta,
    Cyan,
    Gray,
    DarkGray,
    LightRed,
    LightGreen,
    LightYellow,
    LightBlue,
    LightMagenta,
    LightCyan,
    White,
    Indexed(u8),
    Rgb(u8, u8, u8),
}

/// What a run of text looks like: a foreground and a background, each either
/// untouched (`None`) or set, and six modifier flags.
#[derive(Clone, Copy, Debug, PartialEq, Eq, Structural)]
pub struct Style {
    pub fg: Option<Color>,
    pub bg: Option<Color>,
    pub bold: bool,
    pub dim: bool,
    pub italic: bool,
    pub underlined: bool,
    pub reversed: bool,
    pub crossed_out: bool,
}

impl Style {
    /// The style that sets nothing.
    pub open spec fn plain() -> Style {
        Style {
            fg: None,
            bg: None,
            bold: false,
            dim: false,
            italic: false,
            underlined: false,
            reversed: false,
            crossed_out: false,
        }
    }

    /// The style that sets nothing.
    pub fn new() -> (style: Style)
        ensures
            style == Style::plain(),
    {
        Style {
            fg: None,
            bg: None,
            bold: false,
            dim: false,
            italic: false,
            underlined: false,
            reversed: false,
            crossed_out: false,
        }
    }
}

/// A run of text together with the style it is shown in.
#[derive(Debug)]
pub struct StyledSpan {
    pub text: String,
    pub style: Style,
}

/// The model of a styled run: its characters and its style.
pub struct Run {
    pub text: Seq<char>,
    pub style: Style,
}

impl View for StyledSpan {
    type V = Run;

    open spec fn view(&self) -> Run {
        Run { text: self.text@, style: self.style }
    }
}

/// The runs that a line of spans stands for.
pub open spec fn runs_of(spans: Seq<StyledSpan>) -> Seq<Run> {
    spans.map_values(|span: StyledSpan| span@)
}

/// A line of styled text: its spans from left to right.
pub type StyledLine = Vec<StyledSpan>;

/// The runs of each of `lines`.
pub open spec fn lines_model(lines: Seq<Vec<StyledSpan>>) -> Seq<Seq<Run>> {
    lines.map_values(|line: Vec<StyledSpan>| runs_of(line@))
}

} // verus!
