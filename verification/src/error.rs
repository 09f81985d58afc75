use vstd::prelude::*;

verus! {

/// Why an operation of the display stack was refused or failed.
#[derive(Clone, Copy, Debug, PartialEq, Eq, Structural)]
pub enum DisplayError {
    /// The serial link failed, or moved another number of bytes than asked.
    Transport,
    /// A bit matrix, byte run or text does not fit where it was addressed.
    Geometry,
    /// The font has no glyph for a character, or is taller than its canvas.
    FontMismatch,
}

impl DisplayError {
    /// A short description for logs and messages.
    pub fn to_str(&self) -> (s: &'static str)
        ensures
            s@ == match *self {
                DisplayError::Transport => "serial transfer failed or was cut short"@,
                DisplayError::Geometry => "content does not fit at the addressed position"@,
                DisplayError::FontMismatch => "font does not match the text or the canvas"@,
            },
    {
        match self {
            DisplayError::Transport => "serial transfer failed or was cut short",
            DisplayError::Geometry => "content does not fit at the addressed position",
            DisplayError::FontMismatch => "font does not match the text or the canvas",
        }
    }
}

} // verus!
