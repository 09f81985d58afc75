use vstd::prelude::*;
use crate::bus::ChipId;
use crate::canvas::{left_padding, text_bit};
use crate::font::{font_height, font_pixel, font_width};
use crate::framebuffer::{
    blank_cells, burst_plans, bursts, bursts_from_row, cell_index, flush_plan, lemma_run_end,
    row_bursts, row_bursts_from, row_dirty, row_vals, run_end, with_bytes, BufferEntry, Burst,
};
use crate::panel::{burst_plan, chip_burst, left_share, right_share};

verus! {

/// Storing in a cell the value that it holds changes nothing: the cell does
/// not turn dirty.
pub proof fn lemma_present_value_changes_nothing(
    cells: Seq<BufferEntry>,
    row: int,
    col: int,
    value: u8,
)
    requires
        cells.len() == 1024,
        0 <= row < 8,
        0 <= col < 128,
        cells[cell_index(row, col)].val == value,
    ensures
        with_bytes(cells, row, col, seq![value]) == cells,
{
    assert(with_bytes(cells, row, col, seq![value]) =~= cells);
}

/// A page without a dirty cell from column `col` on is flushed without a
/// burst from there on.
pub proof fn lemma_clean_tail_sends_nothing(cells: Seq<BufferEntry>, row: int, col: int)
    requires
        cells.len() == 1024,
        0 <= row < 8,
        0 <= col,
        forall|c: int| col <= c < 128 ==> !#[trigger] dirty_at(cells, row, c),
    ensures
        row_bursts_from(cells, row, col) == Seq::<Burst>::empty(),
    decreases 128 - col,
{
    if col < 128 {
        assert(!dirty_at(cells, row, col));
        lemma_clean_tail_sends_nothing(cells, row, col + 1);
    }
}

/// A page without a dirty cell is flushed without a burst.
pub proof fn lemma_clean_row_sends_nothing(cells: Seq<BufferEntry>, row: int)
    requires
        cells.len() == 1024,
        0 <= row < 8,
        forall|c: int| 0 <= c < 128 ==> !#[trigger] dirty_at(cells, row, c),
    ensures
        row_bursts(cells, row) == Seq::<Burst>::empty(),
{
    lemma_clean_tail_sends_nothing(cells, row, 0);
}

/// After the value that a cell holds is stored in it again, a page that was
/// clean is still flushed without a burst.
pub proof fn lemma_present_value_sends_nothing(
    cells: Seq<BufferEntry>,
    row: int,
    col: int,
    value: u8,
)
    requires
        cells.len() == 1024,
        0 <= row < 8,
        0 <= col < 128,
        cells[cell_index(row, col)].val == value,
        forall|c: int| 0 <= c < 128 ==> !#[trigger] dirty_at(cells, row, c),
    ensures
        row_bursts(with_bytes(cells, row, col, seq![value]), row) == Seq::<Burst>::empty(),
{
    lemma_present_value_changes_nothing(cells, row, col, value);
    lemma_clean_row_sends_nothing(cells, row);
}

/// A buffer without a dirty cell is flushed without asking anything of the
/// panel.
pub proof fn lemma_clean_buffer_sends_nothing(cells: Seq<BufferEntry>)
    requires
        cells.len() == 1024,
        forall|i: int| 0 <= i < 1024 ==> !(#[trigger] cells[i]).dirty,
    ensures
        bursts(cells) == Seq::<Burst>::empty(),
        flush_plan(cells) == Seq::<crate::bus::ChipOp>::empty(),
{
    lemma_clean_rows_send_nothing(cells, 0);
    assert(burst_plans(Seq::<Burst>::empty()) =~= Seq::<Seq<crate::bus::ChipOp>>::empty());
}

proof fn lemma_clean_rows_send_nothing(cells: Seq<BufferEntry>, row: int)
    requires
        cells.len() == 1024,
        0 <= row <= 8,
        forall|i: int| 0 <= i < 1024 ==> !(#[trigger] cells[i]).dirty,
    ensures
        bursts_from_row(cells, row) == Seq::<Burst>::empty(),
    decreases 8 - row,
{
    if row < 8 {
        lemma_clean_row_sends_nothing(cells, row);
        lemma_clean_rows_send_nothing(cells, row + 1);
    }
}

/// Whether the cell in page `row`, column `c` is dirty.
pub open spec fn dirty_at(cells: Seq<BufferEntry>, row: int, c: int) -> bool {
    cells[cell_index(row, c)].dirty
}

/// Whether `b` is a maximal run of dirty cells of page `row`: all its cells
/// are dirty, it carries their values, and the columns next to it on either
/// side, if there are any, are clean.
pub open spec fn is_maximal_run(cells: Seq<BufferEntry>, row: int, b: Burst) -> bool {
    let end = b.col + b.bytes.len();
    &&& b.row == row
    &&& 0 <= b.col < end <= 128
    &&& b.bytes == row_vals(cells, row).subrange(b.col, end)
    &&& forall|c: int| b.col <= c < end ==> #[trigger] dirty_at(cells, row, c)
    &&& b.col == 0 || !dirty_at(cells, row, b.col - 1)
    &&& end == 128 || !dirty_at(cells, row, end)
}

/// Whether column `c` of its page is part of burst `b`.
pub open spec fn covers(b: Burst, c: int) -> bool {
    b.col <= c < b.col + b.bytes.len()
}

proof fn lemma_runs_are_maximal(cells: Seq<BufferEntry>, row: int, col: int)
    requires
        cells.len() == 1024,
        0 <= row < 8,
        0 <= col <= 128,
        col == 0 || !dirty_at(cells, row, col - 1) || col == 128 || !dirty_at(cells, row, col),
    ensures
        forall|k: int|
            0 <= k < row_bursts_from(cells, row, col).len() ==> is_maximal_run(
                cells,
                row,
                #[trigger] row_bursts_from(cells, row, col)[k],
            ) && col <= row_bursts_from(cells, row, col)[k].col,
    decreases 128 - col,
{
    let d = row_dirty(cells, row);
    let all = row_bursts_from(cells, row, col);
    if col >= 128 {
    } else if d[col] {
        lemma_run_end(d, col);
        let end = run_end(d, col);
        let first = Burst { row, col, bytes: row_vals(cells, row).subrange(col, end) };
        let rest = row_bursts_from(cells, row, end);
        assert(all == seq![first] + rest);
        if end < 128 {
            assert(!d[end]);
        }
        assert(dirty_at(cells, row, col));
        assert forall|c: int| col <= c < end implies #[trigger] dirty_at(cells, row, c) by {
            assert(d[c]);
        }
        assert(is_maximal_run(cells, row, first));
        lemma_runs_are_maximal(cells, row, end);
        assert forall|k: int| 0 <= k < all.len() implies is_maximal_run(cells, row, #[trigger] all[k])
            && col <= all[k].col by {
            if k > 0 {
                assert(all[k] == rest[k - 1]);
            }
        }
    } else {
        assert(!dirty_at(cells, row, col));
        lemma_runs_are_maximal(cells, row, col + 1);
        assert(all == row_bursts_from(cells, row, col + 1));
        assert forall|k: int| 0 <= k < all.len() implies is_maximal_run(cells, row, #[trigger] all[k])
            && col <= all[k].col by {
            assert(all[k] == row_bursts_from(cells, row, col + 1)[k]);
        }
    }
}

proof fn lemma_runs_are_apart(cells: Seq<BufferEntry>, row: int, col: int)
    requires
        cells.len() == 1024,
        0 <= row < 8,
        0 <= col <= 128,
        col == 0 || !dirty_at(cells, row, col - 1) || col == 128 || !dirty_at(cells, row, col),
    ensures
        forall|k: int|
            #![trigger row_bursts_from(cells, row, col)[k]]
            0 <= k && k + 1 < row_bursts_from(cells, row, col).len() ==> row_bursts_from(
                cells,
                row,
                col,
            )[k].col + row_bursts_from(cells, row, col)[k].bytes.len() < row_bursts_from(
                cells,
                row,
                col,
            )[k + 1].col,
    decreases 128 - col,
{
    let d = row_dirty(cells, row);
    let all = row_bursts_from(cells, row, col);
    if col >= 128 {
    } else if d[col] {
        lemma_run_end(d, col);
        let end = run_end(d, col);
        let first = Burst { row, col, bytes: row_vals(cells, row).subrange(col, end) };
        let rest = row_bursts_from(cells, row, end);
        assert(all == seq![first] + rest);
        if end < 128 {
            assert(!d[end]);
        }
        assert(dirty_at(cells, row, col));
        lemma_runs_are_apart(cells, row, end);
        lemma_runs_are_maximal(cells, row, end);
        assert forall|k: int|
            #![trigger all[k]]
            0 <= k && k + 1 < all.len() implies all[k].col + all[k].bytes.len() < all[k + 1].col by {
            assert(all[k + 1] == rest[k]);
            if k == 0 {
                assert(is_maximal_run(cells, row, rest[0]));
                assert(dirty_at(cells, row, rest[0].col));
                assert(!dirty_at(cells, row, end));
            } else {
                assert(all[k] == rest[k - 1]);
            }
        }
    } else {
        assert(!dirty_at(cells, row, col));
        lemma_runs_are_apart(cells, row, col + 1);
        assert(all == row_bursts_from(cells, row, col + 1));
    }
}

proof fn lemma_runs_cover(cells: Seq<BufferEntry>, row: int, col: int, c: int)
    requires
        cells.len() == 1024,
        0 <= row < 8,
        0 <= col <= c < 128,
        dirty_at(cells, row, c),
    ensures
        exists|k: int|
            0 <= k < row_bursts_from(cells, row, col).len() && #[trigger] covers(
                row_bursts_from(cells, row, col)[k],
                c,
            ),
    decreases 128 - col,
{
    let d = row_dirty(cells, row);
    let all = row_bursts_from(cells, row, col);
    if d[col] {
        lemma_run_end(d, col);
        let end = run_end(d, col);
        let first = Burst { row, col, bytes: row_vals(cells, row).subrange(col, end) };
        let rest = row_bursts_from(cells, row, end);
        assert(all == seq![first] + rest);
        if c < end {
            assert(covers(all[0], c));
        } else {
            lemma_runs_cover(cells, row, end, c);
            let k = choose|k: int| 0 <= k < rest.len() && #[trigger] covers(rest[k], c);
            assert(all[k + 1] == rest[k]);
            assert(covers(all[k + 1], c));
        }
    } else {
        assert(d[c]);
        lemma_runs_cover(cells, row, col + 1, c);
    }
}

/// The bursts that flush a page are its maximal runs of dirty cells, left
/// to right: two runs with a clean column between them are never merged, a
/// clean cell is never sent, and every dirty cell is.
pub proof fn lemma_row_bursts_are_the_dirty_runs(cells: Seq<BufferEntry>, row: int)
    requires
        cells.len() == 1024,
        0 <= row < 8,
    ensures
        forall|k: int|
            0 <= k < row_bursts(cells, row).len() ==> is_maximal_run(
                cells,
                row,
                #[trigger] row_bursts(cells, row)[k],
            ),
        forall|k: int|
            #![trigger row_bursts(cells, row)[k]]
            0 <= k && k + 1 < row_bursts(cells, row).len() ==> row_bursts(cells, row)[k].col
                + row_bursts(cells, row)[k].bytes.len() < row_bursts(cells, row)[k + 1].col,
        forall|c: int|
            0 <= c < 128 && #[trigger] dirty_at(cells, row, c) ==> exists|k: int|
                0 <= k < row_bursts(cells, row).len() && #[trigger] covers(
                    row_bursts(cells, row)[k],
                    c,
                ),
{
    lemma_runs_are_maximal(cells, row, 0);
    lemma_runs_are_apart(cells, row, 0);
    assert forall|c: int| 0 <= c < 128 && #[trigger] dirty_at(cells, row, c) implies exists|k: int|
        0 <= k < row_bursts(cells, row).len() && #[trigger] covers(row_bursts(cells, row)[k], c) by {
        lemma_runs_cover(cells, row, 0, c);
        let k = choose|k: int|
            0 <= k < row_bursts_from(cells, row, 0).len() && #[trigger] covers(
                row_bursts_from(cells, row, 0)[k],
                c,
            );
        assert(covers(row_bursts(cells, row)[k], c));
    }
}

/// A run of dirty cells that ends at a clean column, or at the end of the
/// page, is sent in one burst.
pub proof fn lemma_run_goes_in_one_burst(cells: Seq<BufferEntry>, row: int, col: int, end: int)
    requires
        cells.len() == 1024,
        0 <= row < 8,
        0 <= col < end <= 128,
        forall|c: int| col <= c < end ==> #[trigger] dirty_at(cells, row, c),
        end == 128 || !dirty_at(cells, row, end),
    ensures
        row_bursts_from(cells, row, col) == seq![
            Burst { row, col, bytes: row_vals(cells, row).subrange(col, end) },
        ] + row_bursts_from(cells, row, end),
{
    let d = row_dirty(cells, row);
    assert forall|c: int| col <= c < end implies d[c] by {
        assert(dirty_at(cells, row, c));
    }
    lemma_run_end_is(d, col, end);
}

proof fn lemma_run_end_is(d: Seq<bool>, col: int, end: int)
    requires
        0 <= col <= end <= d.len(),
        forall|c: int| col <= c < end ==> d[c],
        end == d.len() || !d[end],
    ensures
        run_end(d, col) == end,
    decreases end - col,
{
    if col < end {
        lemma_run_end_is(d, col + 1, end);
    }
}

/// A buffer as it is made is flushed in eight bursts, one for each page,
/// and each carries all 128 columns: the first flush touches every byte.
pub proof fn lemma_cold_start_full_clear()
    ensures
        bursts(blank_cells()) == Seq::new(
            8,
            |r: int| Burst { row: r, col: 0, bytes: Seq::new(128, |c: int| 0u8) },
        ),
{
    let cells = blank_cells();
    let goal = Seq::new(8, |r: int| Burst { row: r, col: 0, bytes: Seq::new(128, |c: int| 0u8) });
    lemma_blank_rows(8);
    assert(bursts(cells) =~= goal) by {
        assert(goal.skip(0) =~= goal);
    }
}

proof fn lemma_blank_rows(row: int)
    requires
        0 <= row <= 8,
    ensures
        bursts_from_row(blank_cells(), 8 - row) == Seq::new(
            8,
            |r: int| Burst { row: r, col: 0, bytes: Seq::new(128, |c: int| 0u8) },
        ).skip(8 - row),
    decreases row,
{
    let cells = blank_cells();
    let goal = Seq::new(8, |r: int| Burst { row: r, col: 0, bytes: Seq::new(128, |c: int| 0u8) });
    let r = 8 - row;
    if row == 0 {
        assert(goal.skip(8) =~= Seq::<Burst>::empty());
    } else {
        lemma_blank_rows(row - 1);
        lemma_run_goes_in_one_burst(cells, r, 0, 128);
        assert(row_vals(cells, r).subrange(0, 128) =~= Seq::new(128, |c: int| 0u8));
        assert(row_bursts_from(cells, r, 128) =~= Seq::<Burst>::empty());
        assert(row_bursts(cells, r) =~= seq![goal[r]]);
        assert(goal.skip(r) =~= seq![goal[r]] + goal.skip(r + 1));
    }
}

/// A burst that starts on the panel reaches as far as the panel does: the
/// two chips together take all of its bytes that fit between its first
/// column and column 127.
pub proof fn lemma_shares(col: int, len: int)
    requires
        0 <= col < 128,
        0 <= len,
    ensures
        left_share(col, len) + right_share(col, len) == if len <= 128 - col {
            len
        } else {
            128 - col
        },
{
}

/// A burst that crosses from column 63 to column 64 is split there: the
/// left chip gets the bytes up to its last column, the right chip gets the
/// others from its column 0 on.
pub proof fn lemma_burst_splits_at_chip_boundary(row: int, col: int, bytes: Seq<u8>)
    requires
        0 <= row < 8,
        0 <= col < 64,
        64 < col + bytes.len() <= 128,
    ensures
        burst_plan(row, col, bytes) == chip_burst(
            ChipId::Chip1,
            row as u8,
            col as u8,
            bytes.take(64 - col),
        ) + chip_burst(ChipId::Chip2, row as u8, 0, bytes.skip(64 - col)),
{
    assert(bytes.subrange(64 - col, bytes.len() as int) =~= bytes.skip(64 - col));
}

/// Text is centred: left of the padding and right of the last glyph
/// everything is off, and column `x` of glyph `i` stands at the padding
/// plus `i` glyph widths plus `x`. The first glyph's leftmost column is the
/// padding, half of the width that the text leaves over, rounded down.
pub proof fn lemma_text_is_centred(
    font: bitmap_font::BitmapFont,
    text: Seq<char>,
    width: int,
    r: int,
)
    requires
        text.len() * font_width(font) <= width,
        0 <= r < font_height(font),
    ensures
        forall|c: int|
            c < left_padding(width, text.len() as int, font_width(font) as int) ==> !#[trigger] text_bit(
                font,
                text,
                width,
                r,
                c,
            ),
        forall|c: int|
            c >= left_padding(width, text.len() as int, font_width(font) as int) + text.len()
                * font_width(font) ==> !#[trigger] text_bit(font, text, width, r, c),
        forall|i: int, x: int|
            0 <= i < text.len() && 0 <= x < font_width(font) ==> text_bit(
                font,
                text,
                width,
                r,
                left_padding(width, text.len() as int, font_width(font) as int) + i * font_width(
                    font,
                ) + x,
            ) == #[trigger] font_pixel(font, text[i], x as u32, r as u32),
{
    let gw = font_width(font) as int;
    let n = text.len() as int;
    let pad = left_padding(width, n, gw);
    assert forall|i: int, x: int| 0 <= i < n && 0 <= x < gw implies text_bit(
        font,
        text,
        width,
        r,
        pad + i * gw + x,
    ) == #[trigger] font_pixel(font, text[i], x as u32, r as u32) by {
        let c = i * gw + x;
        assert(0 <= c < n * gw) by (nonlinear_arith)
            requires
                0 <= i < n,
                0 <= x < gw,
                c == i * gw + x,
        ;
        vstd::arithmetic::div_mod::lemma_fundamental_div_mod_converse(c, gw, i, x);
        assert(pad + i * gw + x - pad == c);
    }
}

} // verus!
