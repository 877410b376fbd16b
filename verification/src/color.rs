//! The fixed palette of canvas colors and its stable textual names.

use vstd::prelude::*;

verus! {

/// One color of the fixed twelve-entry palette.
#[derive(Debug, Clone, Copy, PartialEq, Eq, Structural)]
pub enum Color {
    Red,
    Orange,
    Yellow,
    Lime,
    Green,
    Blue,
    Cyan,
    Magenta,
    Purple,
    Black,
    Gray,
    White,
}

impl Default for Color {
    /// The default cell color of a cleared canvas.
    fn default() -> (c: Color)
        ensures
            c == Color::White,
    {
        Color::White
    }
}

/// The stable name under which a color appears on the wire.
pub open spec fn color_name_spec(c: Color) -> Seq<char> {
    match c {
        Color::Red => "Red"@,
        Color::Orange => "Orange"@,
        Color::Yellow => "Yellow"@,
        Color::Lime => "Lime"@,
        Color::Green => "Green"@,
        Color::Blue => "Blue"@,
        Color::Cyan => "Cyan"@,
        Color::Magenta => "Magenta"@,
        Color::Purple => "Purple"@,
        Color::Black => "Black"@,
        Color::Gray => "Gray"@,
        Color::White => "White"@,
    }
}

impl Color {
    /// The stable name of this color.
    pub fn name(&self) -> (s: &'static str)
        ensures
            s@ == color_name_spec(*self),
    {
        match self {
            Color::Red => "Red",
            Color::Orange => "Orange",
            Color::Yellow => "Yellow",
            Color::Lime => "Lime",
            Color::Green => "Green",
            Color::Blue => "Blue",
            Color::Cyan => "Cyan",
            Color::Magenta => "Magenta",
            Color::Purple => "Purple",
            Color::Black => "Black",
            Color::Gray => "Gray",
            Color::White => "White",
        }
    }
}

} // verus!
