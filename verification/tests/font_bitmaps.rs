use wump::error::DisplayError;
use wump::fontmap::{
    cell_metrics, default_charset, CellMetrics, FontBitmapSet, GlyphBox, RasterGlyph, Sample,
    SizeSearch,
};
use wump::oled::{clock_charset, TextCanvas, TextCanvasIterator};

fn bx(min_x: i32, min_y: i32, max_x: i32, max_y: i32) -> Option<GlyphBox> {
    Some(GlyphBox { min_x, min_y, max_x, max_y })
}

#[test]
fn default_charset_is_the_printable_latin_one() {
    let charset = default_charset();
    let want: Vec<char> =
        (32u8..255).map(char::from).filter(|c| !c.is_control()).collect();
    assert_eq!(charset, want);
    assert_eq!(charset.len(), 190);
    assert_eq!(clock_charset(), "0123456789:".chars().collect::<Vec<char>>());
}

#[test]
fn cell_holds_every_glyph_box() {
    let boxes = vec![bx(1, 3, 5, 9), None, bx(0, 4, 4, 12), bx(2, 2, 3, 3)];
    assert_eq!(
        cell_metrics(&boxes),
        Some(CellMetrics { hoffset: 0, voffset: 2, width: 6, height: 11 })
    );
    assert_eq!(cell_metrics(&vec![]), None);
    assert_eq!(cell_metrics(&vec![None, None]), None);
    assert_eq!(
        cell_metrics(&vec![bx(-2, 5, 3, 5)]),
        Some(CellMetrics { hoffset: -2, voffset: 5, width: 6, height: 1 })
    );
    assert_eq!(
        cell_metrics(&vec![bx(3000, 3000, 3001, 3002)]),
        Some(CellMetrics { hoffset: 2000, voffset: 2000, width: 1002, height: 1003 })
    );
}

#[test]
fn size_search_keeps_the_last_trial_that_fits() {
    let mut search = SizeSearch::new(10);
    assert_eq!(search.trial_size(), 9);
    let small = CellMetrics { hoffset: 0, voffset: 1, width: 5, height: 8 };
    let exact = CellMetrics { hoffset: 0, voffset: 0, width: 6, height: 10 };
    let tall = CellMetrics { hoffset: 0, voffset: 0, width: 7, height: 11 };
    assert!(search.report(Some(small)));
    assert_eq!(search.trial_size(), 10);
    assert!(search.report(Some(exact)));
    assert_eq!(search.trial_size(), 11);
    assert!(!search.report(Some(tall)));
    assert_eq!(search.trial_size(), 11);
    assert_eq!(search.result(), exact);
    let mut none = SizeSearch::new(4);
    assert!(!none.report(None));
    assert_eq!(none.result(), CellMetrics { hoffset: 0, voffset: 0, width: 0, height: 0 });
}

fn glyph(c: char, bb: Option<GlyphBox>, on: &[(u32, u32)]) -> RasterGlyph {
    let mut samples: Vec<Sample> = on.iter().map(|&(x, y)| Sample { x, y, on: true }).collect();
    samples.push(Sample { x: 0, y: 0, on: false });
    RasterGlyph { c, bb, samples }
}

fn tiny_set() -> FontBitmapSet {
    let cell = CellMetrics { hoffset: 1, voffset: 2, width: 3, height: 4 };
    let glyphs = vec![
        glyph('1', bx(2, 2, 2, 5), &[(0, 1), (0, 2), (0, 3)]),
        glyph(':', bx(1, 3, 1, 4), &[(0, 1)]),
        RasterGlyph { c: ' ', bb: None, samples: vec![] },
    ];
    FontBitmapSet::new_with_charset(cell, &glyphs).unwrap()
}

#[test]
fn glyph_samples_are_placed_in_the_cell() {
    let set = tiny_set();
    assert_eq!(set.glyph_width(), 3);
    assert_eq!(set.glyph_height(), 4);
    for row in 0..4 {
        for col in 0..3 {
            assert_eq!(set.get('1', row, col), Ok(col == 1 && row >= 1), "{} {}", row, col);
            assert_eq!(set.get(':', row, col), Ok(col == 0 && row == 2), "{} {}", row, col);
            assert_eq!(set.get(' ', row, col), Ok(false));
        }
    }
    assert_eq!(set.get('2', 0, 0), Err(DisplayError::FontMismatch));
    assert_eq!(set.get('2', 9, 9), Err(DisplayError::FontMismatch));
    assert_eq!(set.get('1', 4, 0), Err(DisplayError::Geometry));
    assert_eq!(set.get('1', 0, 3), Err(DisplayError::Geometry));
}

#[test]
fn sample_outside_the_cell_is_refused() {
    let cell = CellMetrics { hoffset: 0, voffset: 0, width: 2, height: 2 };
    let wide = vec![glyph('a', bx(0, 0, 2, 1), &[(2, 0)])];
    assert!(matches!(FontBitmapSet::new_with_charset(cell, &wide), Err(DisplayError::Geometry)));
    let high = vec![glyph('a', bx(0, -1, 1, 0), &[(0, 0)])];
    assert!(matches!(FontBitmapSet::new_with_charset(cell, &high), Err(DisplayError::Geometry)));
    let fits = vec![glyph('a', bx(0, 0, 1, 1), &[(1, 1)])];
    assert!(FontBitmapSet::new_with_charset(cell, &fits).is_ok());
    assert!(matches!(FontBitmapSet::new(cell, &fits), Err(DisplayError::FontMismatch)));
    let all: Vec<RasterGlyph> =
        default_charset().into_iter().map(|c| glyph(c, bx(0, 0, 1, 1), &[(1, 0)])).collect();
    let set = FontBitmapSet::new(cell, &all).unwrap();
    assert_eq!(set.get('ÿ', 0, 1), Err(DisplayError::FontMismatch));
    assert_eq!(set.get('þ', 0, 1), Ok(true));
    assert_eq!(set.get('~', 1, 1), Ok(false));
}

#[test]
fn later_glyph_of_a_character_replaces_the_earlier() {
    let cell = CellMetrics { hoffset: 0, voffset: 0, width: 2, height: 1 };
    let glyphs = vec![glyph('a', bx(0, 0, 1, 0), &[(0, 0)]), glyph('a', bx(0, 0, 1, 0), &[(1, 0)])];
    let set = FontBitmapSet::new_with_charset(cell, &glyphs).unwrap();
    assert_eq!(set.get('a', 0, 0), Ok(false));
    assert_eq!(set.get('a', 0, 1), Ok(true));
}

#[test]
fn canvas_pixels_come_row_after_row() {
    let canvas = TextCanvas::new(tiny_set(), [10, 20], [21, 25]).unwrap();
    assert_eq!(canvas.width(), 11);
    assert_eq!(canvas.height(), 5);
    let text: Vec<char> = "1:1".chars().collect();
    let mut it = TextCanvasIterator::new(&canvas, &text).unwrap();
    let mut rows: Vec<String> = Vec::new();
    for _ in 0..5 {
        let mut row = String::new();
        for _ in 0..11 {
            row.push(if it.next().unwrap() == 1 { '#' } else { '.' });
        }
        rows.push(row);
    }
    assert_eq!(it.next(), None);
    assert_eq!(it.next(), None);
    assert_eq!(
        rows,
        vec!["...........", "..#.....#..", "..#.#...#..", "..#.....#..", "..........."]
    );
}

#[test]
fn canvas_refuses_what_it_cannot_show() {
    assert!(matches!(TextCanvas::new(tiny_set(), [5, 0], [5, 4]), Err(DisplayError::Geometry)));
    assert!(matches!(TextCanvas::new(tiny_set(), [0, 4], [5, 4]), Err(DisplayError::Geometry)));
    let canvas = TextCanvas::new(tiny_set(), [0, 0], [8, 4]).unwrap();
    let long: Vec<char> = "1:1".chars().collect();
    assert!(matches!(TextCanvasIterator::new(&canvas, &long), Err(DisplayError::Geometry)));
    let odd: Vec<char> = "12".chars().collect();
    assert!(matches!(TextCanvasIterator::new(&canvas, &odd), Err(DisplayError::FontMismatch)));
    let fits: Vec<char> = "1:".chars().collect();
    assert!(TextCanvasIterator::new(&canvas, &fits).is_ok());
    let empty: Vec<char> = Vec::new();
    let mut it = TextCanvasIterator::new(&canvas, &empty).unwrap();
    for _ in 0..32 {
        assert_eq!(it.next(), Some(0));
    }
    assert_eq!(it.next(), None);
}
