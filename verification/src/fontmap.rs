use std::collections::HashMap;
use vstd::prelude::*;
use crate::error::DisplayError;

verus! {

broadcast use vstd::std_specs::hash::group_hash_axioms;

/// The pixels that a rasterized glyph covers, both corners included.
#[derive(Clone, Copy, Debug, PartialEq, Eq, Structural)]
pub struct GlyphBox {
    pub min_x: i32,
    pub min_y: i32,
    pub max_x: i32,
    pub max_y: i32,
}

/// The cell that holds every glyph of a set: where it starts in the
/// rasterizer's coordinates, and its size.
#[derive(Clone, Copy, Debug, PartialEq, Eq, Structural)]
pub struct CellMetrics {
    pub hoffset: i32,
    pub voffset: i32,
    pub width: u32,
    pub height: u32,
}

/// One pixel that the rasterizer reports for a glyph, relative to the
/// glyph's box, and whether its coverage counts as on.
#[derive(Clone, Copy, Debug, PartialEq, Eq, Structural)]
pub struct Sample {
    pub x: u32,
    pub y: u32,
    pub on: bool,
}

/// A rasterized glyph: its character, its box if it covers any pixel, and
/// the pixels reported for it.
pub struct RasterGlyph {
    pub c: char,
    pub bb: Option<GlyphBox>,
    pub samples: Vec<Sample>,
}

/// The smaller of two numbers.
pub open spec fn lower(a: int, b: int) -> int {
    if a < b {
        a
    } else {
        b
    }
}

/// The larger of two numbers.
pub open spec fn upper(a: int, b: int) -> int {
    if a > b {
        a
    } else {
        b
    }
}

/// The box around the first `k` of `boxes`, starting from a left and top
/// edge of 2000 and a right and bottom edge of 0. A glyph without a box
/// does not count.
pub open spec fn hull(boxes: Seq<Option<GlyphBox>>, k: int) -> GlyphBox
    decreases k,
{
    if k <= 0 {
        GlyphBox { min_x: 2000, min_y: 2000, max_x: 0, max_y: 0 }
    } else {
        let h = hull(boxes, k - 1);
        match boxes[k - 1] {
            Some(bb) => GlyphBox {
                min_x: lower(h.min_x as int, bb.min_x as int) as i32,
                min_y: lower(h.min_y as int, bb.min_y as int) as i32,
                max_x: upper(h.max_x as int, bb.max_x as int) as i32,
                max_y: upper(h.max_y as int, bb.max_y as int) as i32,
            },
            None => h,
        }
    }
}

/// The cell of a box: as wide and as high as the box, if that is at least
/// one pixel each way.
pub open spec fn cell_of(h: GlyphBox) -> Option<CellMetrics> {
    let w = 1 + h.max_x - h.min_x;
    let v = 1 + h.max_y - h.min_y;
    if w >= 1 && v >= 1 {
        Some(CellMetrics { hoffset: h.min_x, voffset: h.min_y, width: w as u32, height: v as u32 })
    } else {
        None
    }
}

/// The cell that holds all the glyphs whose boxes are given, if any of them
/// has a box that reaches into the rasterizer's first 2000 columns and rows.
pub fn cell_metrics(boxes: &Vec<Option<GlyphBox>>) -> (cell: Option<CellMetrics>)
    ensures
        cell == cell_of(hull(boxes@, boxes@.len() as int)),
{
    let mut h = GlyphBox { min_x: 2000, min_y: 2000, max_x: 0, max_y: 0 };
    let mut k: usize = 0;
    while k < boxes.len()
        invariant
            k <= boxes@.len(),
            h == hull(boxes@, k as int),
        decreases boxes@.len() - k,
    {
        match boxes[k] {
            Some(bb) => {
                h = GlyphBox {
                    min_x: if h.min_x < bb.min_x {
                        h.min_x
                    } else {
                        bb.min_x
                    },
                    min_y: if h.min_y < bb.min_y {
                        h.min_y
                    } else {
                        bb.min_y
                    },
                    max_x: if h.max_x > bb.max_x {
                        h.max_x
                    } else {
                        bb.max_x
                    },
                    max_y: if h.max_y > bb.max_y {
                        h.max_y
                    } else {
                        bb.max_y
                    },
                };
            },
            None => {},
        }
        k += 1;
    }
    let w: i64 = 1 + h.max_x as i64 - h.min_x as i64;
    let v: i64 = 1 + h.max_y as i64 - h.min_y as i64;
    if w >= 1 && v >= 1 {
        Some(CellMetrics { hoffset: h.min_x, voffset: h.min_y, width: w as u32, height: v as u32 })
    } else {
        None
    }
}

/// The search for the largest rasterizer size whose glyphs are no higher
/// than the wanted font size. Sizes are tried upwards from one below the
/// font size; the last trial that fits is kept.
pub struct SizeSearch {
    pub font_size: u32,
    pub accepted: u32,
    pub best: Option<CellMetrics>,
}

impl SizeSearch {
    /// A search for `font_size` that has tried nothing yet.
    pub fn new(font_size: u32) -> (search: SizeSearch)
        ensures
            search == (SizeSearch { font_size, accepted: 0, best: None }),
    {
        SizeSearch { font_size, accepted: 0, best: None }
    }

    /// The size to rasterize at next.
    pub fn trial_size(&self) -> (size: i64)
        ensures
            size == self.font_size - 1 + self.accepted,
    {
        self.font_size as i64 - 1 + self.accepted as i64
    }

    /// Takes the cell of the glyphs rasterized at `trial_size()`. If it is
    /// no higher than the font size, the trial is kept and the search goes
    /// on with the next size; else the search is over and keeps what it had.
    pub fn report(&mut self, trial: Option<CellMetrics>) -> (go_on: bool)
        ensures
            go_on == (trial matches Some(cell) && cell.height <= old(self).font_size && old(
                self,
            ).accepted < u32::MAX),
            go_on ==> *final(self) == (SizeSearch {
                font_size: old(self).font_size,
                accepted: (old(self).accepted + 1) as u32,
                best: trial,
            }),
            !go_on ==> *final(self) == *old(self),
    {
        match trial {
            Some(cell) => {
                if cell.height <= self.font_size && self.accepted < u32::MAX {
                    self.accepted = self.accepted + 1;
                    self.best = trial;
                    true
                } else {
                    false
                }
            },
            None => false,
        }
    }

    /// The cell of the last trial that fitted; a cell of no size if none did.
    pub fn result(&self) -> (cell: CellMetrics)
        ensures
            cell == match self.best {
                Some(c) => c,
                None => CellMetrics { hoffset: 0, voffset: 0, width: 0, height: 0 },
            },
    {
        match self.best {
            Some(c) => c,
            None => CellMetrics { hoffset: 0, voffset: 0, width: 0, height: 0 },
        }
    }
}

/// Where in the bitmap of a cell a sample of a glyph with box `bb` falls,
/// if it falls into the cell at all.
pub open spec fn place(cell: CellMetrics, bb: GlyphBox, s: Sample) -> Option<int> {
    let col = s.x + bb.min_x - cell.hoffset;
    let row = s.y + bb.min_y - cell.voffset;
    if 0 <= row < cell.height && 0 <= col < cell.width {
        Some(col + row * cell.width)
    } else {
        None
    }
}

/// The bitmap of a glyph after its first `k` samples were plotted on a
/// blank cell; nothing, if one of them falls outside the cell.
pub open spec fn plotted(cell: CellMetrics, bb: GlyphBox, samples: Seq<Sample>, k: int) -> Option<
    Seq<bool>,
>
    decreases k,
{
    if k <= 0 {
        Some(Seq::new((cell.width * cell.height) as nat, |i: int| false))
    } else {
        match (plotted(cell, bb, samples, k - 1), place(cell, bb, samples[k - 1])) {
            (Some(bitmap), Some(at)) => Some(bitmap.update(at, samples[k - 1].on)),
            _ => None,
        }
    }
}

/// The bitmap of a rasterized glyph: blank if it has no box.
pub open spec fn bitmap_of(cell: CellMetrics, g: RasterGlyph) -> Option<Seq<bool>> {
    match g.bb {
        Some(bb) => plotted(cell, bb, g.samples@, g.samples@.len() as int),
        None => Some(Seq::new((cell.width * cell.height) as nat, |i: int| false)),
    }
}

/// The bitmaps of the first `k` glyphs by character code, a later glyph
/// replacing an earlier one of the same character; nothing, if one of them
/// does not fit into the cell.
pub open spec fn glyph_map(cell: CellMetrics, glyphs: Seq<RasterGlyph>, k: int) -> Option<
    Map<u32, Seq<bool>>,
>
    decreases k,
{
    if k <= 0 {
        Some(Map::empty())
    } else {
        match (glyph_map(cell, glyphs, k - 1), bitmap_of(cell, glyphs[k - 1])) {
            (Some(m), Some(bitmap)) => Some(m.insert(glyphs[k - 1].c as u32, bitmap)),
            _ => None,
        }
    }
}

/// Whether a character code below 255 stands for a character that is
/// drawn: from the blank on, without the control characters from 127 to 159.
pub open spec fn is_drawn(code: u8) -> bool {
    32 <= code < 255 && !(127 <= code < 160)
}

/// The characters that a set covers unless it is told otherwise: those
/// with codes from 32 to 254 that are no control characters.
pub fn default_charset() -> (charset: Vec<char>)
    ensures
        forall|code: u8| is_drawn(code) <==> #[trigger] charset@.contains(code as char),
        forall|i: int| 0 <= i < charset@.len() ==> (#[trigger] charset@[i]) as u32 <= 254,
{
    let mut charset: Vec<char> = Vec::new();
    let mut u: u8 = 32;
    while u < 255
        invariant
            32 <= u <= 255,
            forall|code: u8|
                is_drawn(code) && code < u <==> #[trigger] charset@.contains(code as char),
            forall|i: int| 0 <= i < charset@.len() ==> (#[trigger] charset@[i]) as u32 <= 254,
        decreases 255 - u,
    {
        if u < 127 || u >= 160 {
            let ghost before = charset@;
            charset.push(u as char);
            assert forall|code: u8| is_drawn(code) && code < u + 1 implies #[trigger] charset@.contains(
                code as char,
            ) by {
                if code < u {
                    assert(before.contains(code as char));
                    let i = choose|i: int| 0 <= i < before.len() && before[i] == code as char;
                    assert(charset@[i] == code as char);
                } else {
                    assert(charset@[before.len() as int] == code as char);
                }
            }
            assert forall|code: u8| #[trigger] charset@.contains(code as char) implies is_drawn(
                code,
            ) && code < u + 1 by {
                let i = choose|i: int| 0 <= i < charset@.len() && charset@[i] == code as char;
                if i < before.len() {
                    assert(before.contains(code as char));
                } else {
                    assert(code as char == u as char);
                    assert(code as char as u32 == code as u32);
                    assert(u as char as u32 == u as u32);
                }
            }
        }
        u += 1;
    }
    charset
}

/// Bitmaps of one common size for a set of characters.
pub struct FontBitmapSet {
    bitmaps: HashMap<u32, Vec<bool>>,
    width: u32,
    height: u32,
}

impl FontBitmapSet {
    /// The width of every glyph.
    pub closed spec fn cols(&self) -> int {
        self.width as int
    }

    /// The height of every glyph.
    pub closed spec fn rows(&self) -> int {
        self.height as int
    }

    /// The bitmaps by character code, each row after row.
    pub closed spec fn glyphs(&self) -> Map<u32, Seq<bool>> {
        Map::new(|k: u32| self.bitmaps@.contains_key(k), |k: u32| self.bitmaps@[k]@)
    }

    /// Every bitmap has the size of the cell.
    pub open spec fn wf(&self) -> bool {
        forall|k: u32| #[trigger]
            self.glyphs().contains_key(k) ==> self.glyphs()[k].len() == self.rows() * self.cols()
    }

    /// The set of the given rasterized glyphs in a cell of the given size.
    /// A glyph with a sample outside the cell is refused with `Geometry`.
    pub fn new_with_charset(cell: CellMetrics, glyphs: &Vec<RasterGlyph>) -> (res: Result<
        FontBitmapSet,
        DisplayError,
    >)
        requires
            cell.width * cell.height <= usize::MAX,
        ensures
            res is Ok <==> glyph_map(cell, glyphs@, glyphs@.len() as int) is Some,
            res matches Ok(set) ==> {
                &&& set.wf()
                &&& set.cols() == cell.width
                &&& set.rows() == cell.height
                &&& Some(set.glyphs()) == glyph_map(cell, glyphs@, glyphs@.len() as int)
            },
            res is Err ==> res->Err_0 == DisplayError::Geometry,
    {
        let size: usize = (cell.width as usize) * (cell.height as usize);
        assert(cell.width * cell.height == cell.height * cell.width) by (nonlinear_arith);
        let mut set = FontBitmapSet {
            bitmaps: HashMap::new(),
            width: cell.width,
            height: cell.height,
        };
        assert(set.glyphs() =~= Map::<u32, Seq<bool>>::empty());
        let mut k: usize = 0;
        while k < glyphs.len()
            invariant
                k <= glyphs@.len(),
                size == cell.width * cell.height,
                size == cell.height * cell.width,
                set.wf(),
                set.cols() == cell.width,
                set.rows() == cell.height,
                Some(set.glyphs()) == glyph_map(cell, glyphs@, k as int),
            decreases glyphs@.len() - k,
        {
            let g = &glyphs[k];
            let mut bitmap: Vec<bool> = Vec::new();
            let mut i: usize = 0;
            while i < size
                invariant
                    i <= size,
                    bitmap@.len() == i,
                    forall|q: int| 0 <= q < i ==> !#[trigger] bitmap@[q],
                decreases size - i,
            {
                bitmap.push(false);
                i += 1;
            }
            assert(bitmap@ =~= Seq::new((cell.width * cell.height) as nat, |i: int| false));
            match g.bb {
                Some(bb) => {
                    let mut j: usize = 0;
                    while j < g.samples.len()
                        invariant
                            j <= g.samples@.len(),
                            k < glyphs@.len(),
                            *g == glyphs@[k as int],
                            g.bb == Some(bb),
                            size == cell.width * cell.height,
                            size == cell.height * cell.width,
                            bitmap@.len() == size,
                            Some(bitmap@) == plotted(cell, bb, g.samples@, j as int),
                        decreases g.samples@.len() - j,
                    {
                        let s = g.samples[j];
                        let col: i64 = s.x as i64 + bb.min_x as i64 - cell.hoffset as i64;
                        let row: i64 = s.y as i64 + bb.min_y as i64 - cell.voffset as i64;
                        if row < 0 || row >= cell.height as i64 || col < 0 || col
                            >= cell.width as i64 {
                            proof {
                                lemma_plot_failed(cell, bb, g.samples@, j + 1, g.samples@.len() as int);
                                lemma_map_failed(cell, glyphs@, k + 1, glyphs@.len() as int);
                            }
                            return Err(DisplayError::Geometry);
                        }
                        proof {
                            crate::bitmatrix::lemma_cell_index(
                                cell.width as int,
                                row as int,
                                col as int,
                                cell.height as int,
                            );
                            assert(row * cell.width == (row as int) * (cell.width as int));
                        }
                        let at: usize = (col as usize) + (row as usize) * (cell.width as usize);
                        bitmap.set(at, s.on);
                        j += 1;
                    }
                },
                None => {},
            }
            let ghost before = set.glyphs();
            set.bitmaps.insert(g.c as u32, bitmap);
            proof {
                assert(set.glyphs() =~= before.insert(g.c as u32, bitmap@));
                assert(bitmap_of(cell, *g) == Some(bitmap@));
            }
            k += 1;
        }
        Ok(set)
    }

    /// The set of the given rasterized glyphs, which must cover the default
    /// character set. A glyph with a sample outside the cell is refused with
    /// `Geometry`, a default character without a glyph with `FontMismatch`.
    pub fn new(cell: CellMetrics, glyphs: &Vec<RasterGlyph>) -> (res: Result<
        FontBitmapSet,
        DisplayError,
    >)
        requires
            cell.width * cell.height <= usize::MAX,
        ensures
            match glyph_map(cell, glyphs@, glyphs@.len() as int) {
                None => res is Err && res->Err_0 == DisplayError::Geometry,
                Some(m) => if forall|code: u8| is_drawn(code) ==> #[trigger] m.contains_key(
                    code as u32,
                ) {
                    &&& res is Ok
                    &&& res->Ok_0.wf()
                    &&& res->Ok_0.cols() == cell.width
                    &&& res->Ok_0.rows() == cell.height
                    &&& res->Ok_0.glyphs() == m
                } else {
                    res is Err && res->Err_0 == DisplayError::FontMismatch
                },
            },
    {
        let set = match FontBitmapSet::new_with_charset(cell, glyphs) {
            Ok(set) => set,
            Err(e) => { return Err(e); },
        };
        let mut u: u8 = 32;
        while u < 255
            invariant
                32 <= u <= 255,
                set.wf(),
                set.cols() == cell.width,
                set.rows() == cell.height,
                Some(set.glyphs()) == glyph_map(cell, glyphs@, glyphs@.len() as int),
                forall|code: u8|
                    is_drawn(code) && code < u ==> #[trigger] set.glyphs().contains_key(code as u32),
            decreases 255 - u,
        {
            if (u < 127 || u >= 160) && !set.bitmaps.contains_key(&(u as u32)) {
                proof {
                    let m = glyph_map(cell, glyphs@, glyphs@.len() as int)->Some_0;
                    assert(m == set.glyphs());
                    assert(is_drawn(u) && !m.contains_key(u as u32));
                }
                return Err(DisplayError::FontMismatch);
            }
            u += 1;
        }
        Ok(set)
    }

    /// The height of every glyph.
    pub fn glyph_height(&self) -> (h: u32)
        ensures
            h == self.rows(),
    {
        self.height
    }

    /// The width of every glyph.
    pub fn glyph_width(&self) -> (w: u32)
        ensures
            w == self.cols(),
    {
        self.width
    }

    /// Whether the pixel in row `row`, column `col` of the glyph of `c` is
    /// on. A character without a glyph is refused with `FontMismatch`, a
    /// pixel outside the cell with `Geometry`.
    pub fn get(&self, c: char, row: u32, col: u32) -> (res: Result<bool, DisplayError>)
        requires
            self.wf(),
        ensures
            res == if !self.glyphs().contains_key(c as u32) {
                Err::<bool, DisplayError>(DisplayError::FontMismatch)
            } else if row >= self.rows() || col >= self.cols() {
                Err::<bool, DisplayError>(DisplayError::Geometry)
            } else {
                Ok::<bool, DisplayError>(self.glyphs()[c as u32][row * self.cols() + col])
            },
    {
        match self.bitmaps.get(&(c as u32)) {
            Some(bmp) => {
                assert(self.glyphs().contains_key(c as u32));
                assert(bmp@ == self.glyphs()[c as u32]);
                if row >= self.height || col >= self.width {
                    return Err(DisplayError::Geometry);
                }
                let n = bmp.len();
                proof {
                    crate::bitmatrix::lemma_cell_index(
                        self.cols(),
                        row as int,
                        col as int,
                        self.rows(),
                    );
                }
                Ok(bmp[(row as usize) * (self.width as usize) + (col as usize)])
            },
            None => {
                assert(!self.glyphs().contains_key(c as u32));
                Err(DisplayError::FontMismatch)
            },
        }
    }
}

proof fn lemma_plot_failed(cell: CellMetrics, bb: GlyphBox, samples: Seq<Sample>, j: int, n: int)
    requires
        0 <= j <= n,
        plotted(cell, bb, samples, j) is None,
    ensures
        plotted(cell, bb, samples, n) is None,
    decreases n - j,
{
    if j < n {
        lemma_plot_failed(cell, bb, samples, j + 1, n);
    }
}

proof fn lemma_map_failed(cell: CellMetrics, glyphs: Seq<RasterGlyph>, k: int, n: int)
    requires
        0 <= k <= n,
        glyph_map(cell, glyphs, k) is None,
    ensures
        glyph_map(cell, glyphs, n) is None,
    decreases n - k,
{
    if k < n {
        lemma_map_failed(cell, glyphs, k + 1, n);
    }
}

} // verus!
