use vstd::prelude::*;
use crate::canvas::{left_padding, lemma_glyph_index};
use crate::error::DisplayError;
use crate::fontmap::FontBitmapSet;

verus! {

/// A rectangle of a grey-scale panel that shows one line of text in the
/// glyphs of a bitmap set.
pub struct TextCanvas {
    bmpset: FontBitmapSet,
    upper_left: [u32; 2],
    lower_right: [u32; 2],
}

/// The characters of a clock: the ten digits and the colon.
pub fn clock_charset() -> (charset: Vec<char>)
    ensures
        charset@ == seq!['0', '1', '2', '3', '4', '5', '6', '7', '8', '9', ':'],
{
    let mut charset: Vec<char> = Vec::new();
    charset.push('0');
    charset.push('1');
    charset.push('2');
    charset.push('3');
    charset.push('4');
    charset.push('5');
    charset.push('6');
    charset.push('7');
    charset.push('8');
    charset.push('9');
    charset.push(':');
    assert(charset@ =~= seq!['0', '1', '2', '3', '4', '5', '6', '7', '8', '9', ':']);
    charset
}

/// The value of the pixel in row `row`, column `col` of a band `width`
/// pixels wide in which `text` is centred in the glyphs of `set`: 1 where a
/// glyph is on, 0 elsewhere.
pub open spec fn band_pixel(set: FontBitmapSet, text: Seq<char>, width: int, row: int, col: int) -> u8 {
    let cw = set.cols();
    let pad = left_padding(width, text.len() as int, cw);
    if pad <= col < pad + text.len() * cw && 0 <= row < set.rows() && set.glyphs()[text[(col - pad)
        / cw] as u32][row * cw + (col - pad) % cw] {
        1
    } else {
        0
    }
}

impl TextCanvas {
    /// The glyphs of the canvas.
    pub closed spec fn font(&self) -> FontBitmapSet {
        self.bmpset
    }

    /// The width of the canvas in pixels.
    pub closed spec fn cols(&self) -> int {
        self.lower_right[0] - self.upper_left[0]
    }

    /// The height of the canvas in pixels.
    pub closed spec fn rows(&self) -> int {
        self.lower_right[1] - self.upper_left[1]
    }

    /// The canvas has an area and its glyphs are sound.
    pub open spec fn wf(&self) -> bool {
        &&& self.cols() > 0
        &&& self.rows() > 0
        &&& self.font().wf()
    }

    /// A canvas from `upper_left` to `lower_right`, each corner given as
    /// column and row, for text in the glyphs of `bmpset`. Corners that are
    /// not strictly ordered in both axes are refused with `Geometry`.
    pub fn new(bmpset: FontBitmapSet, upper_left: [u32; 2], lower_right: [u32; 2]) -> (res: Result<
        TextCanvas,
        DisplayError,
    >)
        requires
            bmpset.wf(),
        ensures
            res is Ok <==> upper_left[0] < lower_right[0] && upper_left[1] < lower_right[1],
            res matches Ok(canvas) ==> {
                &&& canvas.wf()
                &&& canvas.font() == bmpset
                &&& canvas.cols() == lower_right[0] - upper_left[0]
                &&& canvas.rows() == lower_right[1] - upper_left[1]
            },
            res is Err ==> res->Err_0 == DisplayError::Geometry,
    {
        if upper_left[0] >= lower_right[0] || upper_left[1] >= lower_right[1] {
            return Err(DisplayError::Geometry);
        }
        Ok(TextCanvas { bmpset, upper_left, lower_right })
    }

    /// The width of the canvas in pixels.
    pub fn width(&self) -> (w: u32)
        requires
            self.wf(),
        ensures
            w == self.cols(),
    {
        self.lower_right[0] - self.upper_left[0]
    }

    /// The height of the canvas in pixels.
    pub fn height(&self) -> (h: u32)
        requires
            self.wf(),
        ensures
            h == self.rows(),
    {
        self.lower_right[1] - self.upper_left[1]
    }
}

/// The pixels of a canvas that shows a text, row after row from the top,
/// each row from the left.
pub struct TextCanvasIterator<'a> {
    canvas: &'a TextCanvas,
    text: &'a Vec<char>,
    left_padding: u32,
    row: u32,
    col: u32,
}

impl<'a> TextCanvasIterator<'a> {
    /// The canvas that the pixels are of.
    pub closed spec fn target(&self) -> TextCanvas {
        *self.canvas
    }

    /// The text shown.
    pub closed spec fn shown(&self) -> Seq<char> {
        self.text@
    }

    /// The row of the pixel that comes next.
    pub closed spec fn next_row(&self) -> int {
        self.row as int
    }

    /// The column of the pixel that comes next.
    pub closed spec fn next_col(&self) -> int {
        self.col as int
    }

    /// The padding left of the text, as it was computed at the start.
    pub closed spec fn pad(&self) -> int {
        self.left_padding as int
    }

    /// The canvas is sound, the text fits and has a glyph for every
    /// character, and the next pixel lies on the canvas or just below it.
    pub open spec fn wf(&self) -> bool {
        &&& self.target().wf()
        &&& self.shown().len() * self.target().font().cols() <= self.target().cols()
        &&& self.pad() == left_padding(
            self.target().cols(),
            self.shown().len() as int,
            self.target().font().cols(),
        )
        &&& forall|i: int|
            0 <= i < self.shown().len() ==> self.target().font().glyphs().contains_key(
                (#[trigger] self.shown()[i]) as u32,
            )
        &&& 0 <= self.next_col() < self.target().cols()
        &&& 0 <= self.next_row() <= self.target().rows()
    }

    /// The pixels of `canvas` showing `text` centred, from the upper left
    /// one on. A text too wide for the canvas is refused with `Geometry`, a
    /// character without a glyph with `FontMismatch`.
    pub fn new(canvas: &'a TextCanvas, text: &'a Vec<char>) -> (res: Result<
        TextCanvasIterator<'a>,
        DisplayError,
    >)
        requires
            canvas.wf(),
        ensures
            match res {
                Ok(it) => {
                    &&& it.wf()
                    &&& it.target() == *canvas
                    &&& it.shown() == text@
                    &&& it.next_row() == 0
                    &&& it.next_col() == 0
                },
                Err(e) => if text@.len() * canvas.font().cols() > canvas.cols() {
                    e == DisplayError::Geometry
                } else {
                    e == DisplayError::FontMismatch
                },
            },
            res is Ok <==> text@.len() * canvas.font().cols() <= canvas.cols() && forall|i: int|
                0 <= i < text@.len() ==> canvas.font().glyphs().contains_key(
                    (#[trigger] text@[i]) as u32,
                ),
    {
        let cw = canvas.bmpset.glyph_width();
        let width = canvas.width();
        proof {
            crate::canvas::lemma_too_wide(text@.len() as int, cw as int, width as int);
        }
        if cw != 0 && text.len() > (width / cw) as usize {
            return Err(DisplayError::Geometry);
        }
        let mut i: usize = 0;
        while i < text.len()
            invariant
                i <= text@.len(),
                canvas.wf(),
                text@.len() * canvas.font().cols() <= canvas.cols(),
                forall|k: int|
                    0 <= k < i ==> canvas.font().glyphs().contains_key((#[trigger] text@[k]) as u32),
            decreases text@.len() - i,
        {
            match canvas.bmpset.get(text[i], 0, 0) {
                Err(DisplayError::FontMismatch) => {
                    assert(!canvas.font().glyphs().contains_key(text@[i as int] as u32));
                    return Err(DisplayError::FontMismatch);
                },
                _ => {},
            }
            i += 1;
        }
        let text_width: usize = text.len() * (cw as usize);
        let left_padding: u32 = ((width as usize - text_width) / 2) as u32;
        Ok(TextCanvasIterator { canvas, text, left_padding, row: 0, col: 0 })
    }

    /// The next pixel, or nothing once the last row is through.
    pub fn next(&mut self) -> (res: Option<u8>)
        requires
            old(self).wf(),
        ensures
            final(self).wf(),
            final(self).target() == old(self).target(),
            final(self).shown() == old(self).shown(),
            res is Some <==> old(self).next_row() < old(self).target().rows(),
            res matches Some(v) ==> v == band_pixel(
                old(self).target().font(),
                old(self).shown(),
                old(self).target().cols(),
                old(self).next_row(),
                old(self).next_col(),
            ),
            res is None ==> *final(self) == *old(self),
            res is Some ==> if old(self).next_col() + 1 < old(self).target().cols() {
                final(self).next_row() == old(self).next_row() && final(self).next_col() == old(
                    self,
                ).next_col() + 1
            } else {
                final(self).next_row() == old(self).next_row() + 1 && final(self).next_col() == 0
            },
    {
        if self.row >= self.canvas.height() {
            return None;
        }
        let mut val: u8 = 0;
        let char_width = self.canvas.bmpset.glyph_width();
        let n = self.text.len();
        if self.col >= self.left_padding && ((self.col - self.left_padding) as usize) < n
            * (char_width as usize) {
            let net_col = self.col - self.left_padding;
            proof {
                lemma_glyph_index(net_col as int, n as int, char_width as int);
            }
            let char_idx = net_col / char_width;
            let col_in_char = net_col % char_width;
            let c = self.text[char_idx as usize];
            match self.canvas.bmpset.get(c, self.row, col_in_char) {
                Ok(true) => {
                    val = 1;
                },
                _ => {},
            }
        }
        self.col += 1;
        if self.col >= self.canvas.width() {
            self.col = 0;
            self.row += 1;
        }
        Some(val)
    }
}

} // verus!
