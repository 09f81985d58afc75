use vstd::prelude::*;
use vstd::string::*;
use crate::bitmatrix::{lemma_cell_index, BitGrid, Vec2d};
use crate::error::DisplayError;
use crate::font::{font_height, font_pixel, font_width};
use crate::framebuffer::{flush_result, painted, BufferedLcd};
use crate::link::ExpanderLink;
use crate::panel::{LCD_HEIGHT, LCD_WIDTH};

verus! {

/// The blank columns to the left of a text of `n` glyphs, each `gw` pixels
/// wide, centred in `width` pixels: half of what is left over, rounded down.
pub open spec fn left_padding(width: int, n: int, gw: int) -> int {
    (width - n * gw) / 2
}

/// The bit in row `r`, column `c` of a band `width` pixels wide in which
/// `text` is centred in the glyphs of `font`: the glyphs stand side by side
/// from the left padding on, their tops at row 0; everything else is off.
pub open spec fn text_bit(
    font: bitmap_font::BitmapFont,
    text: Seq<char>,
    width: int,
    r: int,
    c: int,
) -> bool {
    let gw = font_width(font) as int;
    let pad = left_padding(width, text.len() as int, gw);
    if 0 <= r < font_height(font) && pad <= c < pad + text.len() * gw {
        font_pixel(font, text[(c - pad) / gw], ((c - pad) % gw) as u32, r as u32)
    } else {
        false
    }
}

/// The bit matrix of a band of `height` rows and `width` columns in which
/// `text` is centred in the glyphs of `font`.
pub open spec fn text_grid(
    font: bitmap_font::BitmapFont,
    text: Seq<char>,
    width: int,
    height: int,
) -> BitGrid {
    BitGrid {
        rows: height,
        cols: width,
        bits: Seq::new((height * width) as nat, |k: int| text_bit(font, text, width, k / width, k % width)),
    }
}

/// A rectangle of the panel that shows one line of text in one font.
pub struct TextCanvas {
    bmpset: bitmap_font::BitmapFont,
    upper_left: [usize; 2],
    lower_right: [usize; 2],
}

impl TextCanvas {
    /// The font of the canvas.
    pub closed spec fn font(&self) -> bitmap_font::BitmapFont {
        self.bmpset
    }

    /// The leftmost pixel column of the canvas.
    pub closed spec fn left(&self) -> int {
        self.upper_left[0] as int
    }

    /// The topmost pixel row of the canvas.
    pub closed spec fn top(&self) -> int {
        self.upper_left[1] as int
    }

    /// The pixel column just right of the canvas.
    pub closed spec fn right(&self) -> int {
        self.lower_right[0] as int
    }

    /// The pixel row just below the canvas.
    pub closed spec fn bottom(&self) -> int {
        self.lower_right[1] as int
    }

    /// The upper left corner lies strictly left of and above the lower
    /// right one, and a glyph of the font is no taller than the canvas.
    pub open spec fn wf(&self) -> bool {
        &&& 0 <= self.left() < self.right()
        &&& 0 <= self.top() < self.bottom()
        &&& font_height(self.font()) <= self.bottom() - self.top()
    }

    /// Whether the canvas lies on the panel.
    pub open spec fn on_panel(&self) -> bool {
        self.right() <= 128 && self.bottom() <= 64
    }

    /// Whether `text` is too wide for the canvas.
    pub open spec fn too_wide(&self, text: Seq<char>) -> bool {
        text.len() * font_width(self.font()) > self.right() - self.left()
    }

    /// The bit matrix that shows `text` on the canvas.
    pub open spec fn grid_of(&self, text: Seq<char>) -> BitGrid {
        text_grid(self.font(), text, self.right() - self.left(), self.bottom() - self.top())
    }

    /// A canvas from `upper_left` to `lower_right`, each corner given as
    /// column and row, for text in `bmpset`. Corners that are not strictly
    /// ordered in both axes are refused with `Geometry`, a canvas lower than
    /// a glyph with `FontMismatch`.
    pub fn new(bmpset: &bitmap_font::BitmapFont, upper_left: [usize; 2], lower_right: [
        usize
    ; 2]) -> (res: Result<TextCanvas, DisplayError>)
        ensures
            match res {
                Ok(canvas) => {
                    &&& canvas.wf()
                    &&& canvas.font() == *bmpset
                    &&& canvas.left() == upper_left[0]
                    &&& canvas.top() == upper_left[1]
                    &&& canvas.right() == lower_right[0]
                    &&& canvas.bottom() == lower_right[1]
                },
                Err(e) => if upper_left[0] >= lower_right[0] || upper_left[1] >= lower_right[1] {
                    e == DisplayError::Geometry
                } else {
                    e == DisplayError::FontMismatch
                },
            },
            res is Ok <==> upper_left[0] < lower_right[0] && upper_left[1] < lower_right[1]
                && font_height(*bmpset) <= lower_right[1] - upper_left[1],
    {
        if upper_left[0] >= lower_right[0] || upper_left[1] >= lower_right[1] {
            return Err(DisplayError::Geometry);
        }
        let canvas_height = lower_right[1] - upper_left[1];
        if canvas_height < bmpset.height() as usize {
            return Err(DisplayError::FontMismatch);
        }
        Ok(TextCanvas { bmpset: *bmpset, upper_left, lower_right })
    }

    /// The width of the canvas in pixels.
    pub fn width(&self) -> (w: usize)
        requires
            self.wf(),
        ensures
            w == self.right() - self.left(),
    {
        self.lower_right[0] - self.upper_left[0]
    }

    /// The height of the canvas in pixels.
    pub fn height(&self) -> (h: usize)
        requires
            self.wf(),
        ensures
            h == self.bottom() - self.top(),
    {
        self.lower_right[1] - self.upper_left[1]
    }
    /// What rendering `text` on this canvas makes of the frame buffer
    /// `before`. A text too wide for the canvas, or a canvas that reaches
    /// beyond the panel, is refused with `Geometry`, and then nothing is
    /// stored or sent. Else the matrix of the centred text is laid over the
    /// buffer at the canvas's upper left corner and the buffer is flushed.
    pub open spec fn rendered<L: ExpanderLink>(
        &self,
        text: Seq<char>,
        before: BufferedLcd<L>,
        after: BufferedLcd<L>,
        res: Result<(), DisplayError>,
    ) -> bool {
        &&& after.wf()
        &&& after.backlight() == before.backlight()
        &&& if self.too_wide(text) || !self.on_panel() {
            &&& res == Err::<(), DisplayError>(DisplayError::Geometry)
            &&& after.cells() == before.cells()
            &&& after.panel() == before.panel()
        } else {
            &&& flush_result(
                painted(before.cells(), self.grid_of(text), self.top(), self.left()),
                before.accesses(),
                after.cells(),
                after.accesses(),
                res is Ok,
            )
            &&& res is Err ==> res->Err_0 == DisplayError::Transport
        }
    }

    /// The bit matrix, as large as the canvas, that shows `text` centred.
    fn rasterize(&self, text: &Vec<char>) -> (bits: Vec2d)
        requires
            self.wf(),
            self.on_panel(),
            !self.too_wide(text@),
        ensures
            bits.wf(),
            bits@ == self.grid_of(text@),
    {
        let width = self.width();
        let height = self.height();
        let font = self.bmpset;
        let char_width = font.width() as usize;
        let char_height = font.height() as usize;
        let n = text.len();
        assert(height * width <= 64 * 128) by (nonlinear_arith)
            requires
                0 <= height <= 64,
                0 <= width <= 128,
        ;
        let text_width = n * char_width;
        let pad: usize = (width - text_width) / 2;
        let mut bits = Vec2d::new(height, width);
        proof {
            lemma_text_begin(bits@, font, text@, width as int, height as int);
        }
        let mut i_row: usize = 0;
        while i_row < char_height
            invariant
                i_row <= char_height <= height,
                self.wf(),
                font == self.font(),
                width == self.right() - self.left(),
                height == self.bottom() - self.top(),
                char_width == font_width(font),
                char_height == font_height(font),
                n == text@.len(),
                text_width == n * char_width,
                text_width <= width,
                pad == left_padding(width as int, n as int, char_width as int),
                bits.wf(),
                bits@.rows == height,
                bits@.cols == width,
                text_progress(bits@, font, text@, width as int, height as int, i_row as int, 0),
            decreases char_height - i_row,
        {
            let mut i_col: usize = 0;
            while i_col < text_width
                invariant
                    i_col <= text_width,
                    i_row < char_height <= height,
                    self.wf(),
                    font == self.font(),
                    width == self.right() - self.left(),
                    height == self.bottom() - self.top(),
                    char_width == font_width(font),
                    char_height == font_height(font),
                    n == text@.len(),
                    text_width == n * char_width,
                    text_width <= width,
                    pad == left_padding(width as int, n as int, char_width as int),
                    bits.wf(),
                    bits@.rows == height,
                    bits@.cols == width,
                    text_progress(
                        bits@,
                        font,
                        text@,
                        width as int,
                        height as int,
                        i_row as int,
                        i_col as int,
                    ),
                decreases text_width - i_col,
            {
                proof {
                    lemma_glyph_index(i_col as int, n as int, char_width as int);
                    lemma_text_step(
                        bits@,
                        font,
                        text@,
                        width as int,
                        height as int,
                        i_row as int,
                        i_col as int,
                    );
                }
                let i_char = i_col / char_width;
                let i_col_in_char = i_col % char_width;
                let on = font.pixel(text[i_char], i_col_in_char as u32, i_row as u32);
                bits.set(i_row, pad + i_col, on);
                i_col += 1;
            }
            proof {
                lemma_text_row_done(bits@, font, text@, width as int, height as int, i_row as int);
            }
            i_row += 1;
        }
        proof {
            lemma_text_done(bits@, font, text@, width as int, height as int);
        }
        bits
    }

    /// Shows `text` on the canvas, centred, and flushes the frame buffer.
    pub fn render_text<L: ExpanderLink>(&self, dpy: &mut BufferedLcd<L>, text: &str) -> (res: Result<
        (),
        DisplayError,
    >)
        requires
            self.wf(),
            old(dpy).wf(),
        ensures
            self.rendered(text@, *old(dpy), *final(dpy), res),
    {
        let n = text.unicode_len();
        let mut chars: Vec<char> = Vec::new();
        let mut i: usize = 0;
        while i < n
            invariant
                i <= n,
                n == text@.len(),
                chars@ == text@.take(i as int),
            decreases n - i,
        {
            chars.push(text.get_char(i));
            assert(text@.take(i as int).push(text@[i as int]) =~= text@.take(i + 1));
            i += 1;
        }
        assert(text@.take(n as int) =~= text@);
        self.render_chars(dpy, &chars)
    }

    /// Shows the characters of `text` on the canvas, centred, and flushes
    /// the frame buffer.
    pub fn render_chars<L: ExpanderLink>(&self, dpy: &mut BufferedLcd<L>, text: &Vec<char>) -> (res:
        Result<(), DisplayError>)
        requires
            self.wf(),
            old(dpy).wf(),
        ensures
            self.rendered(text@, *old(dpy), *final(dpy), res),
    {
        let char_width = self.bmpset.width() as usize;
        let width = self.width();
        proof {
            lemma_too_wide(text@.len() as int, char_width as int, width as int);
        }
        if char_width != 0 && text.len() > width / char_width {
            return Err(DisplayError::Geometry);
        }
        if self.lower_right[0] > LCD_WIDTH || self.lower_right[1] > LCD_HEIGHT {
            return Err(DisplayError::Geometry);
        }
        let bits = self.rasterize(text);
        dpy.set_bits_at(self.upper_left[1], self.upper_left[0], &bits, true)
    }
}

/// A text of `n` glyphs of width `gw` is wider than `width` exactly when
/// `n` exceeds the number of whole glyphs that fit.
pub proof fn lemma_too_wide(n: int, gw: int, width: int)
    requires
        0 <= n,
        0 <= gw,
        0 <= width,
    ensures
        n * gw > width <==> gw != 0 && n > width / gw,
{
    if gw != 0 {
        vstd::arithmetic::div_mod::lemma_fundamental_div_mod(width, gw);
        let q = width / gw;
        assert(0 <= width % gw < gw);
        if n > q {
            assert(n * gw >= (q + 1) * gw) by (nonlinear_arith)
                requires
                    n >= q + 1,
                    gw > 0,
            ;
            assert((q + 1) * gw == gw * q + gw) by (nonlinear_arith);
        } else {
            assert(n * gw <= q * gw) by (nonlinear_arith)
                requires
                    n <= q,
                    gw > 0,
            ;
            assert(q * gw == gw * q) by (nonlinear_arith);
        }
    } else {
        assert(n * gw == 0) by (nonlinear_arith)
            requires
                gw == 0,
        ;
    }
}

/// Column `c` of a row of `n` glyphs of width `gw` lies in glyph `c / gw`,
/// at its column `c % gw`.
pub proof fn lemma_glyph_index(c: int, n: int, gw: int)
    requires
        0 <= c < n * gw,
        0 <= n,
        0 <= gw,
    ensures
        gw > 0,
        0 <= c / gw < n,
        0 <= c % gw < gw,
{
    assert(gw > 0) by (nonlinear_arith)
        requires
            0 <= c < n * gw,
            0 <= gw,
    ;
    vstd::arithmetic::div_mod::lemma_fundamental_div_mod(c, gw);
    let q = c / gw;
    assert(q < n) by (nonlinear_arith)
        requires
            c < n * gw,
            c == gw * q + c % gw,
            0 <= c % gw,
            gw > 0,
    ;
    assert(0 <= q) by (nonlinear_arith)
        requires
            0 <= c,
            c == gw * q + c % gw,
            c % gw < gw,
            gw > 0,
    ;
}

/// How far the matrix `m` of `text` has come when the glyph rows before `r`
/// are done and row `r` up to column `c` of the text.
#[verifier::opaque]
pub open spec fn text_progress(
    m: BitGrid,
    font: bitmap_font::BitmapFont,
    text: Seq<char>,
    width: int,
    height: int,
    r: int,
    c: int,
) -> bool {
    let pad = left_padding(width, text.len() as int, font_width(font) as int);
    &&& m.rows == height
    &&& m.cols == width
    &&& m.bits.len() == height * width
    &&& forall|i: int, j: int|
        0 <= i < height && 0 <= j < width ==> #[trigger] m.at(i, j) == (if i < r || (i == r && j
            < pad + c) {
            text_bit(font, text, width, i, j)
        } else {
            false
        })
}

proof fn lemma_text_begin(
    m: BitGrid,
    font: bitmap_font::BitmapFont,
    text: Seq<char>,
    width: int,
    height: int,
)
    requires
        m.rows == height,
        m.cols == width,
        0 < width,
        0 <= height,
        m.bits.len() == height * width,
        forall|k: int| 0 <= k < height * width ==> !#[trigger] m.bits[k],
        text.len() * font_width(font) <= width,
    ensures
        text_progress(m, font, text, width, height, 0, 0),
{
    reveal(text_progress);
    assert forall|i: int, j: int| 0 <= i < height && 0 <= j < width implies #[trigger] m.at(i, j)
        == false by {
        lemma_cell_index(width, i, j, height);
    }
}

proof fn lemma_text_step(
    m: BitGrid,
    font: bitmap_font::BitmapFont,
    text: Seq<char>,
    width: int,
    height: int,
    r: int,
    c: int,
)
    requires
        text_progress(m, font, text, width, height, r, c),
        0 <= r < font_height(font) <= height,
        0 <= c < text.len() * font_width(font) <= width,
    ensures
        ({
            let gw = font_width(font) as int;
            let pad = left_padding(width, text.len() as int, gw);
            &&& 0 <= pad
            &&& pad + c < width
            &&& text_progress(
                BitGrid {
                    rows: m.rows,
                    cols: m.cols,
                    bits: m.bits.update(
                        r * width + (pad + c),
                        font_pixel(font, text[c / gw], (c % gw) as u32, r as u32),
                    ),
                },
                font,
                text,
                width,
                height,
                r,
                c + 1,
            )
        }),
{
    reveal(text_progress);
    let gw = font_width(font) as int;
    let pad = left_padding(width, text.len() as int, gw);
    let on = font_pixel(font, text[c / gw], (c % gw) as u32, r as u32);
    let next = BitGrid { rows: m.rows, cols: m.cols, bits: m.bits.update(r * width + (pad + c), on) };
    lemma_cell_index(width, r, pad + c, height);
    assert forall|i: int, j: int| 0 <= i < height && 0 <= j < width implies #[trigger] next.at(i, j)
        == (if i < r || (i == r && j < pad + (c + 1)) {
        text_bit(font, text, width, i, j)
    } else {
        false
    }) by {
        lemma_cell_index(width, i, j, height);
        if i == r && j == pad + c {
        } else {
            assert(i * width + j != r * width + (pad + c));
            assert(next.at(i, j) == m.at(i, j));
        }
    }
}

proof fn lemma_text_row_done(
    m: BitGrid,
    font: bitmap_font::BitmapFont,
    text: Seq<char>,
    width: int,
    height: int,
    r: int,
)
    requires
        text_progress(m, font, text, width, height, r, text.len() * font_width(font)),
        0 <= r,
        text.len() * font_width(font) <= width,
    ensures
        text_progress(m, font, text, width, height, r + 1, 0),
{
    reveal(text_progress);
    let gw = font_width(font) as int;
    let pad = left_padding(width, text.len() as int, gw);
    let tw = text.len() * gw;
    assert forall|i: int, j: int| 0 <= i < height && 0 <= j < width implies #[trigger] m.at(i, j) == (
    if i < r + 1 || (i == r + 1 && j < pad + 0) {
        text_bit(font, text, width, i, j)
    } else {
        false
    }) by {
        assert(m.at(i, j) == (if i < r || (i == r && j < pad + tw) {
            text_bit(font, text, width, i, j)
        } else {
            false
        }));
    }
}

proof fn lemma_text_done(
    m: BitGrid,
    font: bitmap_font::BitmapFont,
    text: Seq<char>,
    width: int,
    height: int,
)
    requires
        text_progress(m, font, text, width, height, font_height(font) as int, 0),
        0 < width,
        0 <= height,
    ensures
        m == text_grid(font, text, width, height),
{
    reveal(text_progress);
    let goal = text_grid(font, text, width, height);
    assert forall|k: int| 0 <= k < height * width implies m.bits[k] == goal.bits[k] by {
        vstd::arithmetic::div_mod::lemma_fundamental_div_mod(k, width);
        let i = k / width;
        let j = k % width;
        assert(0 <= j < width);
        assert(0 <= i < height) by (nonlinear_arith)
            requires
                0 <= k < height * width,
                k == width * i + j,
                0 <= j < width,
                0 < width,
        ;
        assert(width * i == i * width) by (nonlinear_arith);
        assert(m.bits[k] == m.at(i, j));
    }
    assert(m.bits =~= goal.bits);
}

} // verus!
