use vstd::prelude::*;
use crate::bitmatrix::{BitGrid, Vec2d};
use crate::bus::ChipOp;
use crate::error::DisplayError;
use crate::link::{ExpanderLink, WireOp};
use crate::panel::{
    burst_plan, fill_plan, onoff_plan, Lcd128x64, LCD_HEIGHT, LCD_N_BYTE_ROWS, LCD_WIDTH,
};
use crate::trace::{
    added, concat_all, lemma_concat_whole, lemma_ran_nothing, lemma_ran_part, lemma_ran_then, ran,
    stepped, Step,
};

verus! {

/// Cells of the frame buffer: 8 pages of 128 columns.
pub const N_CELLS: usize = 1024;

/// One byte of the frame buffer: eight pixels of one column, the topmost in
/// bit 0, and whether the panel has yet to see this value.
#[derive(Clone, Copy, Debug, PartialEq, Eq, Structural)]
pub struct BufferEntry {
    pub val: u8,
    pub dirty: bool,
}

/// A run of bytes written to the panel in one go: page, first column, values.
pub struct Burst {
    pub row: int,
    pub col: int,
    pub bytes: Seq<u8>,
}

/// The place of a cell in the buffer, which is stored page after page.
pub open spec fn cell_index(row: int, col: int) -> int {
    row * 128 + col
}

/// The dirty flags of one page, by column.
pub open spec fn row_dirty(cells: Seq<BufferEntry>, row: int) -> Seq<bool> {
    Seq::new(128, |c: int| cells[cell_index(row, c)].dirty)
}

/// The values of one page, by column.
pub open spec fn row_vals(cells: Seq<BufferEntry>, row: int) -> Seq<u8> {
    Seq::new(128, |c: int| cells[cell_index(row, c)].val)
}

/// The first position from `s` on that is not dirty, or the length of `d`.
pub open spec fn run_end(d: Seq<bool>, s: int) -> int
    decreases d.len() - s,
{
    if 0 <= s < d.len() && d[s] {
        run_end(d, s + 1)
    } else {
        s
    }
}

/// From `s` up to `run_end(d, s)` everything is dirty, and what follows is
/// not.
pub proof fn lemma_run_end(d: Seq<bool>, s: int)
    requires
        0 <= s <= d.len(),
    ensures
        s <= run_end(d, s) <= d.len(),
        s < d.len() && d[s] ==> s < run_end(d, s),
        forall|c: int| s <= c < run_end(d, s) ==> d[c],
        run_end(d, s) < d.len() ==> !d[run_end(d, s)],
    decreases d.len() - s,
{
    if s < d.len() && d[s] {
        lemma_run_end(d, s + 1);
    }
}

/// The bursts that flush page `row` from column `col` on: one for each
/// maximal run of dirty columns, left to right.
pub open spec fn row_bursts_from(cells: Seq<BufferEntry>, row: int, col: int) -> Seq<Burst>
    decreases 128 - col,
{
    let d = row_dirty(cells, row);
    if col < 0 || col >= 128 {
        Seq::empty()
    } else if d[col] {
        proof {
            lemma_run_end(d, col);
        }
        let end = run_end(d, col);
        seq![Burst { row, col, bytes: row_vals(cells, row).subrange(col, end) }]
            + row_bursts_from(cells, row, end)
    } else {
        row_bursts_from(cells, row, col + 1)
    }
}

/// The bursts that flush page `row`.
pub open spec fn row_bursts(cells: Seq<BufferEntry>, row: int) -> Seq<Burst> {
    row_bursts_from(cells, row, 0)
}

/// The bursts that flush the pages from `row` down, page after page. Runs
/// never reach across pages.
pub open spec fn bursts_from_row(cells: Seq<BufferEntry>, row: int) -> Seq<Burst>
    decreases 8 - row,
{
    if row < 0 || row >= 8 {
        Seq::empty()
    } else {
        row_bursts(cells, row) + bursts_from_row(cells, row + 1)
    }
}

/// The bursts that flush the whole buffer.
pub open spec fn bursts(cells: Seq<BufferEntry>) -> Seq<Burst> {
    bursts_from_row(cells, 0)
}

/// What each burst asks of the two chips.
pub open spec fn burst_plans(bs: Seq<Burst>) -> Seq<Seq<ChipOp>> {
    Seq::new(bs.len(), |k: int| burst_plan(bs[k].row, bs[k].col, bs[k].bytes))
}

/// Everything that flushing the buffer asks of the two chips.
pub open spec fn flush_plan(cells: Seq<BufferEntry>) -> Seq<ChipOp> {
    concat_all(burst_plans(bursts(cells)))
}

/// The buffer with the cells before position `p` marked clean.
pub open spec fn flushed_to(cells: Seq<BufferEntry>, p: int) -> Seq<BufferEntry> {
    Seq::new(
        cells.len(),
        |i: int|
            if i < p {
                BufferEntry { val: cells[i].val, dirty: false }
            } else {
                cells[i]
            },
    )
}

/// A flush of `cells` broke off in burst `k`: the bursts before it went
/// through and their cells are clean, burst `k` failed at one of its steps
/// and its cells, like all that follow, are as they were.
pub open spec fn flush_broke_in(
    cells: Seq<BufferEntry>,
    now: Seq<BufferEntry>,
    steps: Seq<Step<ChipOp>>,
    k: int,
) -> bool {
    let bs = bursts(cells);
    let sent = concat_all(burst_plans(bs.take(k))).len();
    &&& 0 <= k < bs.len()
    &&& now == flushed_to(cells, cell_index(bs[k].row, bs[k].col))
    &&& sent < steps.len() <= sent + burst_plan(bs[k].row, bs[k].col, bs[k].bytes).len()
}

/// What a flush of `cells` leaves behind. The chips were asked for the
/// bursts of the dirty runs in order, up to the first step that failed.
/// With `done` every cell is clean; without, the flush broke off in one of
/// the bursts. Values never change.
pub open spec fn flush_result(
    cells: Seq<BufferEntry>,
    before: Seq<Step<ChipOp>>,
    now: Seq<BufferEntry>,
    after: Seq<Step<ChipOp>>,
    done: bool,
) -> bool {
    &&& stepped(before, after, flush_plan(cells), done)
    &&& if done {
        now == flushed_to(cells, 1024)
    } else {
        exists|k: int| #[trigger] flush_broke_in(cells, now, added(before, after), k)
    }
}

/// The buffer after `bytes` were stored in page `row` from column `col` on:
/// a cell turns dirty only where its value changes.
pub open spec fn with_bytes(cells: Seq<BufferEntry>, row: int, col: int, bytes: Seq<u8>) -> Seq<
    BufferEntry,
> {
    Seq::new(
        cells.len(),
        |i: int|
            if cell_index(row, col) <= i < cell_index(row, col) + bytes.len() {
                BufferEntry {
                    val: bytes[i - cell_index(row, col)],
                    dirty: cells[i].dirty || cells[i].val != bytes[i - cell_index(row, col)],
                }
            } else {
                cells[i]
            },
    )
}

/// Bit `k` of `v`.
pub open spec fn bit(v: u8, k: u8) -> bool {
    (v >> k) & 1 == 1
}

/// `v` with bit `k` set or cleared.
pub open spec fn with_bit(v: u8, k: u8, on: bool) -> u8 {
    if on {
        v | (1u8 << k)
    } else {
        v & !(1u8 << k)
    }
}

/// The byte with the given bits, bit 0 first.
pub open spec fn pack8(
    b0: bool,
    b1: bool,
    b2: bool,
    b3: bool,
    b4: bool,
    b5: bool,
    b6: bool,
    b7: bool,
) -> u8 {
    (if b0 { 0x01u8 } else { 0u8 }) | (if b1 { 0x02u8 } else { 0u8 }) | (if b2 { 0x04u8 } else { 0u8 })
        | (if b3 { 0x08u8 } else { 0u8 }) | (if b4 { 0x10u8 } else { 0u8 }) | (if b5 { 0x20u8 } else { 0u8 })
        | (if b6 { 0x40u8 } else { 0u8 }) | (if b7 { 0x80u8 } else { 0u8 })
}

/// Setting or clearing bit `k` gives that bit its value and leaves the others.
pub proof fn lemma_with_bit(v: u8, k: u8, on: bool)
    by (bit_vector)
    requires
        k < 8,
    ensures
        forall|j: u8| j < 8 ==> #[trigger] bit(with_bit(v, k, on), j) == (if j == k { on } else { bit(v, j) }),
        with_bit(v, k, on) != v ==> bit(v, k) != on,
{
}

/// A byte is made of its eight bits.
pub proof fn lemma_pack_bits(v: u8)
    by (bit_vector)
    ensures
        v == pack8(
            bit(v, 0),
            bit(v, 1),
            bit(v, 2),
            bit(v, 3),
            bit(v, 4),
            bit(v, 5),
            bit(v, 6),
            bit(v, 7),
        ),
{
}

/// The pixel in row `y`, column `x` of the panel, as the buffer has it.
pub open spec fn pixel(cells: Seq<BufferEntry>, y: int, x: int) -> bool {
    bit(cells[cell_index(y / 8, x)].val, (y % 8) as u8)
}

/// Whether pixel (`y`, `x`) lies under a bit matrix anchored at (`row`, `col`).
pub open spec fn in_rect(bits: BitGrid, row: int, col: int, y: int, x: int) -> bool {
    row <= y < row + bits.rows && col <= x < col + bits.cols
}

/// The pixel (`y`, `x`) once `bits` is laid over the buffer at (`row`, `col`).
pub open spec fn target_pixel(
    cells: Seq<BufferEntry>,
    bits: BitGrid,
    row: int,
    col: int,
    y: int,
    x: int,
) -> bool {
    if in_rect(bits, row, col, y, x) {
        bits.at(y - row, x - col)
    } else {
        pixel(cells, y, x)
    }
}

/// The value of the cell in page `page`, column `x` once `bits` is laid
/// over the buffer at (`row`, `col`).
pub open spec fn painted_val(
    cells: Seq<BufferEntry>,
    bits: BitGrid,
    row: int,
    col: int,
    page: int,
    x: int,
) -> u8 {
    pack8(
        target_pixel(cells, bits, row, col, page * 8, x),
        target_pixel(cells, bits, row, col, page * 8 + 1, x),
        target_pixel(cells, bits, row, col, page * 8 + 2, x),
        target_pixel(cells, bits, row, col, page * 8 + 3, x),
        target_pixel(cells, bits, row, col, page * 8 + 4, x),
        target_pixel(cells, bits, row, col, page * 8 + 5, x),
        target_pixel(cells, bits, row, col, page * 8 + 6, x),
        target_pixel(cells, bits, row, col, page * 8 + 7, x),
    )
}

/// The buffer once `bits` is laid over it with its upper left corner at
/// pixel row `row`, column `col`: a cell turns dirty only where its value
/// changes.
pub open spec fn painted(cells: Seq<BufferEntry>, bits: BitGrid, row: int, col: int) -> Seq<
    BufferEntry,
> {
    Seq::new(
        cells.len(),
        |i: int|
            BufferEntry {
                val: painted_val(cells, bits, row, col, i / 128, i % 128),
                dirty: cells[i].dirty || painted_val(cells, bits, row, col, i / 128, i % 128)
                    != cells[i].val,
            },
    )
}

/// The buffer with bit `k` of cell `i` set or cleared: the cell turns dirty
/// only if its value changes.
pub open spec fn with_pixel(cells: Seq<BufferEntry>, i: int, k: u8, on: bool) -> Seq<BufferEntry> {
    cells.update(
        i,
        BufferEntry {
            val: with_bit(cells[i].val, k, on),
            dirty: cells[i].dirty || with_bit(cells[i].val, k, on) != cells[i].val,
        },
    )
}

/// The buffer as it is made: every cell zero and dirty.
pub open spec fn blank_cells() -> Seq<BufferEntry> {
    Seq::new(1024, |i: int| BufferEntry { val: 0, dirty: true })
}

/// The panel behind a frame buffer that remembers, byte by byte, what the
/// panel has not seen yet, and sends only that.
pub struct BufferedLcd<L: ExpanderLink> {
    dev: Lcd128x64<L>,
    buffer: Vec<BufferEntry>,
}

impl<L: ExpanderLink> BufferedLcd<L> {
    /// The panel behind the buffer.
    pub closed spec fn panel(&self) -> Lcd128x64<L> {
        self.dev
    }

    /// The buffer, page after page.
    pub closed spec fn cells(&self) -> Seq<BufferEntry> {
        self.buffer@
    }

    /// Everything asked of the two chips so far.
    pub open spec fn accesses(&self) -> Seq<Step<ChipOp>> {
        self.panel().accesses()
    }

    /// Everything asked of the link so far.
    pub open spec fn wire(&self) -> Seq<Step<WireOp>> {
        self.panel().wire()
    }

    /// The recorded backlight state.
    pub open spec fn backlight(&self) -> bool {
        self.panel().backlight()
    }

    /// The panel is sound and the buffer has its 1024 cells.
    pub open spec fn wf(&self) -> bool {
        &&& self.panel().wf()
        &&& self.cells().len() == 1024
    }

    /// Whether the backlight is on.
    pub fn get_backlight(&mut self) -> (on: bool)
        ensures
            on == old(self).backlight(),
            *final(self) == *old(self),
    {
        self.dev.get_backlight()
    }

    /// Sends the cells of page `row` from column `col` to `col + len - 1` in
    /// one burst and marks them clean. Fails, and marks nothing, if the
    /// panel reports another number of bytes written.
    fn send_bytes(&mut self, row: usize, col: usize, len: usize) -> (res: Result<
        (),
        DisplayError,
    >)
        requires
            old(self).wf(),
            row < 8,
            col < 128,
            col + len <= 128,
        ensures
            final(self).wf(),
            final(self).backlight() == old(self).backlight(),
            stepped(
                old(self).accesses(),
                final(self).accesses(),
                burst_plan(
                    row as int,
                    col as int,
                    row_vals(old(self).cells(), row as int).subrange(col as int, col + len),
                ),
                res is Ok,
            ),
            res is Ok ==> final(self).cells() == Seq::new(
                1024,
                |i: int|
                    if cell_index(row as int, col as int) <= i < cell_index(row as int, col as int)
                        + len {
                        BufferEntry { val: old(self).cells()[i].val, dirty: false }
                    } else {
                        old(self).cells()[i]
                    },
            ),
            res is Err ==> final(self).cells() == old(self).cells(),
            res is Err ==> res->Err_0 == DisplayError::Transport,
    {
        let base = row * LCD_WIDTH + col;
        let mut bytes: Vec<u8> = Vec::new();
        let mut k: usize = 0;
        while k < len
            invariant
                k <= len,
                row < 8,
                col + len <= 128,
                base == cell_index(row as int, col as int),
                self.wf(),
                *self == *old(self),
                bytes@ == row_vals(self.cells(), row as int).subrange(col as int, col + k),
            decreases len - k,
        {
            bytes.push(self.buffer[base + k].val);
            assert(row_vals(self.cells(), row as int).subrange(col as int, col + k).push(
                self.cells()[base + k].val,
            ) =~= row_vals(self.cells(), row as int).subrange(col as int, col + k + 1));
            k += 1;
        }
        let n_written = self.dev.set_bytes_at(row, col, bytes.as_slice());
        match n_written {
            Err(e) => Err(e),
            Ok(n) => {
                if n != len {
                    return Err(DisplayError::Transport);
                }
                let ghost before = self.cells();
                let ghost sent = self.panel();
                let mut k: usize = 0;
                while k < len
                    invariant
                        k <= len,
                        row < 8,
                        col + len <= 128,
                        base == cell_index(row as int, col as int),
                        self.wf(),
                        self.panel() == sent,
                        before == old(self).cells(),
                        self.cells() == Seq::new(
                            1024,
                            |i: int|
                                if base <= i < base + k {
                                    BufferEntry { val: before[i].val, dirty: false }
                                } else {
                                    before[i]
                                },
                        ),
                    decreases len - k,
                {
                    let v = self.buffer[base + k].val;
                    self.buffer.set(base + k, BufferEntry { val: v, dirty: false });
                    assert(self.cells() =~= Seq::new(
                        1024,
                        |i: int|
                            if base <= i < base + k + 1 {
                                BufferEntry { val: before[i].val, dirty: false }
                            } else {
                                before[i]
                            },
                    ));
                    k += 1;
                }
                Ok(())
            },
        }
    }
    /// Sends every maximal run of dirty cells to the panel, page by page and
    /// left to right, one burst for each run, and marks the cells of a burst
    /// clean once it went through. Stops at the first burst that fails.
    pub fn write_back(&mut self) -> (res: Result<(), DisplayError>)
        requires
            old(self).wf(),
        ensures
            final(self).wf(),
            final(self).backlight() == old(self).backlight(),
            flush_result(
                old(self).cells(),
                old(self).accesses(),
                final(self).cells(),
                final(self).accesses(),
                res is Ok,
            ),
            res is Err ==> res->Err_0 == DisplayError::Transport,
    {
        let ghost c0 = self.cells();
        let ghost t0 = self.accesses();
        let ghost bs = bursts(c0);
        let ghost parts = burst_plans(bs);
        let ghost mut kdone: int = 0;
        proof {
            lemma_ran_nothing(t0);
            lemma_concat_whole(parts);
            assert(bs.skip(0) =~= bs);
            assert(self.cells() =~= flushed_to(c0, 0));
        }
        let mut r: usize = 0;
        while r < LCD_N_BYTE_ROWS
            invariant
                r <= 8,
                self.wf(),
                self.backlight() == old(self).backlight(),
                c0 == old(self).cells(),
                t0 == old(self).accesses(),
                bs == bursts(c0),
                parts == burst_plans(bs),
                0 <= kdone <= bs.len(),
                bs.skip(kdone) == bursts_from_row(c0, r as int),
                stepped(t0, self.accesses(), concat_all(parts.take(kdone)), true),
                self.cells() == flushed_to(c0, cell_index(r as int, 0)),
            decreases 8 - r,
        {
            let mut i: usize = 0;
            while i < LCD_WIDTH
                invariant
                    i <= 128,
                    r < 8,
                    self.wf(),
                    self.backlight() == old(self).backlight(),
                    c0 == old(self).cells(),
                    t0 == old(self).accesses(),
                    bs == bursts(c0),
                    parts == burst_plans(bs),
                    0 <= kdone <= bs.len(),
                    bs.skip(kdone) == row_bursts_from(c0, r as int, i as int) + bursts_from_row(
                        c0,
                        r + 1,
                    ),
                    stepped(t0, self.accesses(), concat_all(parts.take(kdone)), true),
                    self.cells() == flushed_to(c0, cell_index(r as int, i as int)),
                decreases 128 - i,
            {
                let ghost d = row_dirty(c0, r as int);
                if self.buffer[r * LCD_WIDTH + i].dirty {
                    let mut e: usize = i + 1;
                    while e < LCD_WIDTH && self.buffer[r * LCD_WIDTH + e].dirty
                        invariant
                            i < e <= 128,
                            r < 8,
                            c0.len() == 1024,
                            self.cells() == flushed_to(c0, cell_index(r as int, i as int)),
                            d == row_dirty(c0, r as int),
                            run_end(d, i as int) == run_end(d, e as int),
                        decreases 128 - e,
                    {
                        e += 1;
                    }
                    let ghost t = self.accesses();
                    let ghost held = self.cells();
                    let ghost rest = row_bursts_from(c0, r as int, e as int) + bursts_from_row(
                        c0,
                        r + 1,
                    );
                    let ghost burst = Burst {
                        row: r as int,
                        col: i as int,
                        bytes: row_vals(c0, r as int).subrange(i as int, e as int),
                    };
                    proof {
                        assert(run_end(d, i as int) == e);
                        assert(bs.skip(kdone) =~= seq![burst] + rest);
                        assert(bs[kdone] == bs.skip(kdone)[0]);
                        assert(bs.skip(kdone + 1) =~= bs.skip(kdone).skip(1));
                        assert((seq![burst] + rest).skip(1) =~= rest);
                        assert(row_vals(held, r as int).subrange(i as int, e as int) =~= burst.bytes);
                    }
                    let res = self.send_bytes(r, i, e - i);
                    proof {
                        lemma_ran_part(t0, t, self.accesses(), parts, kdone, res is Ok);
                    }
                    if res.is_err() {
                        proof {
                            assert(burst_plans(bs.take(kdone)) =~= parts.take(kdone));
                            assert(added(t0, t).len() == crate::trace::ops_of(added(t0, t)).len());
                            assert(flush_broke_in(c0, self.cells(), added(t0, self.accesses()), kdone));
                        }
                        return res;
                    }
                    proof {
                        kdone = kdone + 1;
                        assert(self.cells() =~= flushed_to(c0, cell_index(r as int, e as int)));
                    }
                    i = e;
                } else {
                    proof {
                        assert(self.cells() =~= flushed_to(c0, cell_index(r as int, i + 1)));
                    }
                    i += 1;
                }
            }
            proof {
                assert(row_bursts_from(c0, r as int, 128) =~= Seq::<Burst>::empty());
                assert(bs.skip(kdone) =~= bursts_from_row(c0, r + 1));
            }
            r += 1;
        }
        proof {
            assert(bs.skip(kdone).len() == 0);
            assert(parts.take(kdone) =~= parts);
        }
        Ok(())
    }
    /// Brings up the panel on `link`, switches both chips on, and flushes a
    /// buffer of which every cell is zero and dirty: the panel is cleared.
    pub fn new(link: L) -> (res: Result<BufferedLcd<L>, DisplayError>)
        ensures
            res matches Ok(lcd) ==> {
                &&& lcd.wf()
                &&& !lcd.backlight()
                &&& ran(lcd.accesses(), onoff_plan(true) + flush_plan(blank_cells()), true)
                &&& lcd.cells() == flushed_to(blank_cells(), 1024)
            },
            res is Err ==> res->Err_0 == DisplayError::Transport,
    {
        let mut dev = match Lcd128x64::new(link) {
            Ok(dev) => dev,
            Err(e) => { return Err(e); },
        };
        let ghost e = Seq::<Step<ChipOp>>::empty();
        let r = dev.set_onoff(true);
        if r.is_err() {
            return Err(DisplayError::Transport);
        }
        let mut buffer: Vec<BufferEntry> = Vec::new();
        let mut k: usize = 0;
        while k < N_CELLS
            invariant
                k <= 1024,
                buffer@.len() == k,
                forall|q: int| 0 <= q < k ==> #[trigger] buffer@[q] == (BufferEntry {
                    val: 0,
                    dirty: true,
                }),
            decreases 1024 - k,
        {
            buffer.push(BufferEntry { val: 0, dirty: true });
            k += 1;
        }
        assert(buffer@ =~= blank_cells());
        let mut obj = BufferedLcd { dev, buffer };
        let ghost t1 = obj.accesses();
        let r = obj.write_back();
        if r.is_err() {
            return Err(DisplayError::Transport);
        }
        proof {
            lemma_ran_then(e, t1, obj.accesses(), onoff_plan(true), flush_plan(blank_cells()), true);
            assert(added(e, obj.accesses()) == obj.accesses());
        }
        Ok(obj)
    }

    /// Hands the link back.
    pub fn release(self) -> (link: L)
        ensures
            link == self.panel().bus().link(),
    {
        self.dev.release()
    }

    /// Switches the backlight. Nothing is sent if it is in the requested
    /// state already.
    pub fn set_backlight(&mut self, on: bool) -> (res: Result<(), DisplayError>)
        requires
            old(self).wf(),
        ensures
            final(self).wf(),
            final(self).cells() == old(self).cells(),
            stepped(
                old(self).accesses(),
                final(self).accesses(),
                crate::panel::backlight_plan(old(self).backlight(), on),
                res is Ok,
            ),
            res is Ok ==> final(self).backlight() == on,
            res is Err ==> final(self).backlight() == old(self).backlight(),
            res is Err ==> res->Err_0 == DisplayError::Transport,
    {
        self.dev.set_backlight(on)
    }

    /// Writes zero to every byte of the panel, past the buffer: the buffer
    /// keeps its values and its flags.
    pub fn clear(&mut self) -> (res: Result<(), DisplayError>)
        requires
            old(self).wf(),
        ensures
            final(self).wf(),
            final(self).cells() == old(self).cells(),
            final(self).backlight() == old(self).backlight(),
            stepped(old(self).accesses(), final(self).accesses(), fill_plan(0x00), res is Ok),
            res is Err ==> res->Err_0 == DisplayError::Transport,
    {
        self.dev.clear()
    }

    /// Stores `value` in the cell of page `row`, column `col`. The cell
    /// turns dirty only if that changes its value. Nothing is sent.
    pub fn set_byte(&mut self, row: usize, col: usize, value: u8) -> (res: Result<
        (),
        DisplayError,
    >)
        requires
            old(self).wf(),
        ensures
            final(self).wf(),
            final(self).panel() == old(self).panel(),
            res is Ok <==> row < 8 && col < 128,
            res is Ok ==> final(self).cells() == with_bytes(
                old(self).cells(),
                row as int,
                col as int,
                seq![value],
            ),
            res is Err ==> res->Err_0 == DisplayError::Geometry && final(self).cells() == old(self).cells(),
    {
        if row >= LCD_N_BYTE_ROWS || col >= LCD_WIDTH {
            return Err(DisplayError::Geometry);
        }
        let idx = row * LCD_WIDTH + col;
        let entry = self.buffer[idx];
        if entry.val != value {
            self.buffer.set(idx, BufferEntry { val: value, dirty: true });
        }
        assert(self.cells() =~= with_bytes(old(self).cells(), row as int, col as int, seq![value]));
        Ok(())
    }

    /// Stores `bytes` in page `row` from column `col` on, and with `wb`
    /// flushes the buffer. A cell turns dirty only if its value changes. A
    /// run that does not fit in the page is refused with `Geometry`, and
    /// then nothing is stored or sent.
    pub fn set_bytes_at(&mut self, row: usize, col: usize, bytes: &[u8], wb: bool) -> (res: Result<
        (),
        DisplayError,
    >)
        requires
            old(self).wf(),
        ensures
            final(self).wf(),
            final(self).backlight() == old(self).backlight(),
            (res matches Err(e) && e == DisplayError::Geometry) <==> !(row < 8 && col
                + bytes@.len() <= 128),
            !(row < 8 && col + bytes@.len() <= 128) ==> final(self).cells() == old(self).cells()
                && final(self).panel() == old(self).panel(),
            row < 8 && col + bytes@.len() <= 128 && !wb ==> res is Ok && final(self).panel() == old(self).panel() && final(self).cells() == with_bytes(
                old(self).cells(),
                row as int,
                col as int,
                bytes@,
            ),
            row < 8 && col + bytes@.len() <= 128 && wb ==> flush_result(
                with_bytes(old(self).cells(), row as int, col as int, bytes@),
                old(self).accesses(),
                final(self).cells(),
                final(self).accesses(),
                res is Ok,
            ) && (res is Err ==> res->Err_0 == DisplayError::Transport),
    {
        let n = bytes.len();
        if row >= LCD_N_BYTE_ROWS || col > LCD_WIDTH || n > LCD_WIDTH - col {
            return Err(DisplayError::Geometry);
        }
        let ghost c0 = self.cells();
        let mut i: usize = 0;
        while i < n
            invariant
                i <= n,
                n == bytes@.len(),
                row < 8,
                col + n <= 128,
                self.wf(),
                self.panel() == old(self).panel(),
                c0 == old(self).cells(),
                self.cells() == with_bytes(c0, row as int, col as int, bytes@.take(i as int)),
            decreases n - i,
        {
            let idx = row * LCD_WIDTH + col + i;
            let b = bytes[i];
            let entry = self.buffer[idx];
            if entry.val != b {
                self.buffer.set(idx, BufferEntry { val: b, dirty: true });
            }
            assert(self.cells() =~= with_bytes(c0, row as int, col as int, bytes@.take(i + 1)));
            i += 1;
        }
        assert(bytes@.take(n as int) =~= bytes@);
        if wb {
            self.write_back()
        } else {
            Ok(())
        }
    }

    /// Sets or clears one pixel in the buffer; the caller has checked that
    /// it lies on the panel.
    fn put_bit(&mut self, y: usize, x: usize, on: bool)
        requires
            old(self).wf(),
            y < 64,
            x < 128,
        ensures
            final(self).wf(),
            final(self).panel() == old(self).panel(),
            final(self).cells() == with_pixel(
                old(self).cells(),
                cell_index(y as int / 8, x as int),
                (y % 8) as u8,
                on,
            ),
    {
        let idx = (y / 8) * LCD_WIDTH + x;
        let k: u8 = (y % 8) as u8;
        let entry = self.buffer[idx];
        assert(1u8 << k <= 0x80 && k < 8) by (bit_vector)
            requires
                k < 8,
        ;
        let mask: u8 = 1u8 << k;
        let val: u8 = if on {
            entry.val | mask
        } else {
            entry.val & !mask
        };
        if val != entry.val {
            self.buffer.set(idx, BufferEntry { val, dirty: true });
        }
        assert(self.cells() =~= with_pixel(old(self).cells(), idx as int, k, on));
    }

    /// Sets or clears the pixel in row `row`, column `col`: bit `row % 8` of
    /// the cell in page `row / 8`. The cell turns dirty only if that changes
    /// its value. Nothing is sent.
    pub fn set_bit(&mut self, row: usize, col: usize, value: bool) -> (res: Result<
        (),
        DisplayError,
    >)
        requires
            old(self).wf(),
        ensures
            final(self).wf(),
            final(self).panel() == old(self).panel(),
            res is Ok <==> row < 64 && col < 128,
            res is Ok ==> final(self).cells() == with_pixel(
                old(self).cells(),
                cell_index(row as int / 8, col as int),
                (row % 8) as u8,
                value,
            ),
            res is Err ==> res->Err_0 == DisplayError::Geometry && final(self).cells() == old(self).cells(),
    {
        if row >= LCD_HEIGHT || col >= LCD_WIDTH {
            return Err(DisplayError::Geometry);
        }
        self.put_bit(row, col, value);
        Ok(())
    }
    /// Lays `bits` over the buffer with its upper left corner at pixel row
    /// `row`, column `col`, and with `wb` flushes the buffer. A cell turns
    /// dirty only if its value changes. A matrix that does not fit on the
    /// panel there is refused with `Geometry`, and then nothing is stored or
    /// sent.
    pub fn set_bits_at(&mut self, row: usize, col: usize, bits: &Vec2d, wb: bool) -> (res: Result<
        (),
        DisplayError,
    >)
        requires
            old(self).wf(),
            bits.wf(),
        ensures
            final(self).wf(),
            final(self).backlight() == old(self).backlight(),
            (res matches Err(e) && e == DisplayError::Geometry) <==> !(row + bits.rows() <= 64
                && col + bits.cols() <= 128),
            !(row + bits.rows() <= 64 && col + bits.cols() <= 128) ==> final(self).cells() == old(self).cells()
                && final(self).panel() == old(self).panel(),
            row + bits.rows() <= 64 && col + bits.cols() <= 128 && !wb ==> res is Ok && final(self).panel()
                == old(self).panel() && final(self).cells() == painted(
                old(self).cells(),
                bits@,
                row as int,
                col as int,
            ),
            row + bits.rows() <= 64 && col + bits.cols() <= 128 && wb ==> flush_result(
                painted(old(self).cells(), bits@, row as int, col as int),
                old(self).accesses(),
                final(self).cells(),
                final(self).accesses(),
                res is Ok,
            ) && (res is Err ==> res->Err_0 == DisplayError::Transport),
    {
        let h = bits.height();
        let w = bits.width();
        if row > LCD_HEIGHT || h > LCD_HEIGHT - row || col > LCD_WIDTH || w > LCD_WIDTH - col {
            return Err(DisplayError::Geometry);
        }
        let ghost c0 = self.cells();
        proof {
            lemma_paint_begin(c0, bits@, row as int, col as int);
        }
        let mut i: usize = 0;
        while i < h
            invariant
                i <= h,
                h == bits.rows(),
                w == bits.cols(),
                bits.wf(),
                row + h <= 64,
                col + w <= 128,
                self.wf(),
                self.panel() == old(self).panel(),
                c0 == old(self).cells(),
                paint_progress(c0, self.cells(), bits@, row as int, col as int, i as int, 0),
            decreases h - i,
        {
            let mut j: usize = 0;
            while j < w
                invariant
                    j <= w,
                    i < h,
                    h == bits.rows(),
                    w == bits.cols(),
                    bits.wf(),
                    row + h <= 64,
                    col + w <= 128,
                    self.wf(),
                    self.panel() == old(self).panel(),
                    c0 == old(self).cells(),
                    paint_progress(c0, self.cells(), bits@, row as int, col as int, i as int, j as int),
                decreases w - j,
            {
                let on = bits.get(i, j);
                proof {
                    lemma_paint_step(c0, self.cells(), bits@, row as int, col as int, i as int, j as int);
                }
                self.put_bit(row + i, col + j, on);
                j += 1;
            }
            proof {
                lemma_paint_row_done(c0, self.cells(), bits@, row as int, col as int, i as int);
            }
            i += 1;
        }
        proof {
            lemma_paint_done(c0, self.cells(), bits@, row as int, col as int);
        }
        if wb {
            self.write_back()
        } else {
            Ok(())
        }
    }
}

/// How far laying `bits` over the buffer `c0` at (`row`, `col`) has come in
/// `now`, when the rows of the matrix before `i` are done and row `i` up to
/// column `j`.
#[verifier::opaque]
pub open spec fn paint_progress(
    c0: Seq<BufferEntry>,
    now: Seq<BufferEntry>,
    bits: BitGrid,
    row: int,
    col: int,
    i: int,
    j: int,
) -> bool {
    &&& c0.len() == 1024
    &&& now.len() == 1024
    &&& forall|y: int, x: int|
        0 <= y < 64 && 0 <= x < 128 ==> #[trigger] pixel(now, y, x) == (if col <= x < col + bits.cols
            && (row <= y < row + i || (y == row + i && x < col + j)) {
            bits.at(y - row, x - col)
        } else {
            pixel(c0, y, x)
        })
    &&& forall|q: int|
        0 <= q < 1024 ==> (#[trigger] now[q]).dirty == (c0[q].dirty || now[q].val != c0[q].val)
}

proof fn lemma_paint_begin(c0: Seq<BufferEntry>, bits: BitGrid, row: int, col: int)
    requires
        c0.len() == 1024,
    ensures
        paint_progress(c0, c0, bits, row, col, 0, 0),
{
    reveal(paint_progress);
}

proof fn lemma_paint_step(
    c0: Seq<BufferEntry>,
    prev: Seq<BufferEntry>,
    bits: BitGrid,
    row: int,
    col: int,
    i: int,
    j: int,
)
    requires
        paint_progress(c0, prev, bits, row, col, i, j),
        0 <= row,
        0 <= col,
        0 <= i < bits.rows,
        0 <= j < bits.cols,
        row + bits.rows <= 64,
        col + bits.cols <= 128,
    ensures
        paint_progress(
            c0,
            with_pixel(
                prev,
                cell_index((row + i) / 8, col + j),
                ((row + i) % 8) as u8,
                bits.at(i, j),
            ),
            bits,
            row,
            col,
            i,
            j + 1,
        ),
{
    reveal(paint_progress);
    let on = bits.at(i, j);
    let y0 = row + i;
    let x0 = col + j;
    let q0 = cell_index(y0 / 8, x0);
    let k0 = (y0 % 8) as u8;
    let next = with_pixel(prev, q0, k0, on);
    lemma_with_bit(prev[q0].val, k0, on);
    assert(pixel(prev, y0, x0) == pixel(c0, y0, x0));
    assert forall|y: int, x: int| 0 <= y < 64 && 0 <= x < 128 implies #[trigger] pixel(next, y, x)
        == (if col <= x < col + bits.cols && (row <= y < row + i || (y == row + i && x < col + j
        + 1)) {
        bits.at(y - row, x - col)
    } else {
        pixel(c0, y, x)
    }) by {
        let q = cell_index(y / 8, x);
        if q == q0 {
            assert(y / 8 == y0 / 8 && x == x0);
            let kk = (y % 8) as u8;
            assert(bit(with_bit(prev[q0].val, k0, on), kk) == (if kk == k0 {
                on
            } else {
                bit(prev[q0].val, kk)
            }));
            assert(pixel(prev, y, x) == bit(prev[q0].val, kk));
        } else {
            assert(pixel(next, y, x) == pixel(prev, y, x));
        }
    }
    assert forall|q: int| 0 <= q < 1024 implies (#[trigger] next[q]).dirty == (c0[q].dirty
        || next[q].val != c0[q].val) by {
        if q == q0 {
            assert(prev[q0].dirty == (c0[q0].dirty || prev[q0].val != c0[q0].val));
        } else {
            assert(next[q] == prev[q]);
        }
    }
}

proof fn lemma_paint_row_done(
    c0: Seq<BufferEntry>,
    now: Seq<BufferEntry>,
    bits: BitGrid,
    row: int,
    col: int,
    i: int,
)
    requires
        paint_progress(c0, now, bits, row, col, i, bits.cols),
        0 <= i,
    ensures
        paint_progress(c0, now, bits, row, col, i + 1, 0),
{
    reveal(paint_progress);
    assert forall|y: int, x: int| 0 <= y < 64 && 0 <= x < 128 implies #[trigger] pixel(now, y, x)
        == (if col <= x < col + bits.cols && (row <= y < row + (i + 1) || (y == row + (i + 1) && x
        < col + 0)) {
        bits.at(y - row, x - col)
    } else {
        pixel(c0, y, x)
    }) by {
        let before = col <= x < col + bits.cols && (row <= y < row + i || (y == row + i && x < col
            + bits.cols));
        let after = col <= x < col + bits.cols && (row <= y < row + (i + 1) || (y == row + (i + 1)
            && x < col + 0));
        assert(before == after);
        assert(pixel(now, y, x) == (if before {
            bits.at(y - row, x - col)
        } else {
            pixel(c0, y, x)
        }));
    }
}

proof fn lemma_paint_done(
    c0: Seq<BufferEntry>,
    now: Seq<BufferEntry>,
    bits: BitGrid,
    row: int,
    col: int,
)
    requires
        paint_progress(c0, now, bits, row, col, bits.rows, 0),
    ensures
        now == painted(c0, bits, row, col),
{
    reveal(paint_progress);
    let goal = painted(c0, bits, row, col);
    assert forall|q: int| 0 <= q < 1024 implies now[q] == goal[q] by {
        let v = now[q].val;
        let page = q / 128;
        let x = q % 128;
        lemma_pack_bits(v);
        assert(q == cell_index(page, x));
        assert(pixel(now, page * 8, x) == bit(v, 0));
        assert(pixel(now, page * 8 + 1, x) == bit(v, 1));
        assert(pixel(now, page * 8 + 2, x) == bit(v, 2));
        assert(pixel(now, page * 8 + 3, x) == bit(v, 3));
        assert(pixel(now, page * 8 + 4, x) == bit(v, 4));
        assert(pixel(now, page * 8 + 5, x) == bit(v, 5));
        assert(pixel(now, page * 8 + 6, x) == bit(v, 6));
        assert(pixel(now, page * 8 + 7, x) == bit(v, 7));
        assert(v == painted_val(c0, bits, row, col, page, x));
    }
    assert(now =~= goal);
}

} // verus!
