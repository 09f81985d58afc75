use vstd::prelude::*;

verus! {

/// The bitmap fonts of the `bitmap_font` crate: constant tables of glyphs
/// of one common size. Nothing inside a font is visible here.
#[verifier::external_type_specification]
#[verifier::external_body]
pub struct ExBitmapFont(bitmap_font::BitmapFont);

/// The glyphs of `font` by character, each as the bits of its cell, row
/// after row from the top. A character that the font lacks has the glyph
/// of the question mark.
pub uninterp spec fn font_glyphs(font: bitmap_font::BitmapFont) -> Map<char, Seq<bool>>;

/// The width and the height of the cell of every glyph of `font`, in
/// pixels.
pub uninterp spec fn font_cell(font: bitmap_font::BitmapFont) -> (u32, u32);

/// The width of every glyph of `font`, in pixels.
pub open spec fn font_width(font: bitmap_font::BitmapFont) -> u32 {
    font_cell(font).0
}

/// The height of every glyph of `font`, in pixels.
pub open spec fn font_height(font: bitmap_font::BitmapFont) -> u32 {
    font_cell(font).1
}

/// Whether the pixel in column `x`, row `y` of the glyph that `font` draws
/// for `c` is on.
pub open spec fn font_pixel(font: bitmap_font::BitmapFont, c: char, x: u32, y: u32) -> bool {
    font_glyphs(font)[c][y * font_width(font) + x]
}

/// `BitmapFont::width` gives the width of the font's cell; the same font
/// always gives the same width.
pub assume_specification[ bitmap_font::BitmapFont::width ](font: bitmap_font::BitmapFont) -> (w:
    u32)
    ensures
        w == font_cell(font).0,
;

/// `BitmapFont::height` gives the height of the font's cell; the same font
/// always gives the same height.
pub assume_specification[ bitmap_font::BitmapFont::height ](font: bitmap_font::BitmapFont) -> (h:
    u32)
    ensures
        h == font_cell(font).1,
;

/// `BitmapFont::pixel` looks one pixel of one glyph up in the font's table.
/// It panics for coordinates outside the cell, which the precondition
/// rules out.
pub assume_specification[ bitmap_font::BitmapFont::pixel ](
    font: bitmap_font::BitmapFont,
    c: char,
    x: u32,
    y: u32,
) -> (on: bool)
    requires
        x < font_cell(font).0,
        y < font_cell(font).1,
    ensures
        on == font_glyphs(font)[c][y * font_cell(font).0 + x],
;

/// The constant `bitmap_font::FONT_7x13`, whose table gives glyphs 7 pixels
/// wide and 13 high.
#[verifier::external_body]
pub(crate) fn small_font() -> (font: bitmap_font::BitmapFont)
    ensures
        font_cell(font) == (7u32, 13u32),
{
    bitmap_font::FONT_7x13
}

/// The constant `bitmap_font::FONT_16x32`: the 8 by 16 font with every
/// pixel doubled, so glyphs 16 pixels wide and 32 high.
#[verifier::external_body]
pub(crate) fn large_font() -> (font: bitmap_font::BitmapFont)
    ensures
        font_cell(font) == (16u32, 32u32),
{
    bitmap_font::FONT_16x32
}

} // verus!
