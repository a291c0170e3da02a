use vstd::prelude::*;

verus! {

/// Everything that can go wrong while rendering.
#[derive(Debug, Clone, PartialEq, Eq)]
pub enum RenderError {
    /// A color name that the color set does not hold.
    UnknownColor(String),
    /// The foreground color name of a text run does not resolve.
    UnknownForeground(String),
    /// The background color name of a run does not resolve.
    UnknownBackground(String),
    /// An alias chain of the named entry never reaches a literal color.
    ColorCycle(String),
    /// The font holds no glyph for this character.
    GlyphMissing(char),
    /// A column or a glyph does not have the grid's height.
    HeightMismatch,
    /// Text that starts like a color literal but does not parse as one.
    MalformedColorLiteral(String),
}

/// What an error says, with its text as a sequence of characters.
pub enum ErrorView {
    UnknownColor(Seq<char>),
    UnknownForeground(Seq<char>),
    UnknownBackground(Seq<char>),
    ColorCycle(Seq<char>),
    GlyphMissing(char),
    HeightMismatch,
    MalformedColorLiteral(Seq<char>),
}

impl View for RenderError {
    type V = ErrorView;

    open spec fn view(&self) -> ErrorView {
        match self {
            RenderError::UnknownColor(s) => ErrorView::UnknownColor(s@),
            RenderError::UnknownForeground(s) => ErrorView::UnknownForeground(s@),
            RenderError::UnknownBackground(s) => ErrorView::UnknownBackground(s@),
            RenderError::ColorCycle(s) => ErrorView::ColorCycle(s@),
            RenderError::GlyphMissing(c) => ErrorView::GlyphMissing(*c),
            RenderError::HeightMismatch => ErrorView::HeightMismatch,
            RenderError::MalformedColorLiteral(s) => ErrorView::MalformedColorLiteral(s@),
        }
    }
}

} // verus!
