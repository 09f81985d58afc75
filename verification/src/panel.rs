use vstd::prelude::*;
use crate::bus::{
    addr_cmd, onoff_cmd, page_cmd, startline_cmd, ChipId, ChipOp, NT7108, BL_MASK, CTRL_DEFAULT,
};
use crate::error::DisplayError;
use crate::link::{ExpanderLink, WireOp};
use crate::trace::{
    concat_all, lemma_concat_whole, lemma_ran_failed_prefix, lemma_ran_nothing, lemma_ran_part,
    lemma_ran_push, lemma_ran_then, stepped, Step,
};

verus! {

/// Columns of the panel.
pub const LCD_WIDTH: usize = 128;
/// Pages of the panel: bands of eight pixel rows.
pub const LCD_N_BYTE_ROWS: usize = 8;
/// Pixel rows of the panel.
pub const LCD_HEIGHT: usize = 64;
/// Columns that one controller chip drives.
pub const CHIP_WIDTH: usize = 64;

/// An instruction byte for one chip.
pub open spec fn cmd(chip: ChipId, byte: u8) -> ChipOp {
    ChipOp::Write { chip, is_data: false, byte }
}

/// A byte of display data for one chip.
pub open spec fn data(chip: ChipId, byte: u8) -> ChipOp {
    ChipOp::Write { chip, is_data: true, byte }
}

/// Display data for one chip, byte by byte.
pub open spec fn data_run(chip: ChipId, bytes: Seq<u8>) -> Seq<ChipOp> {
    Seq::new(bytes.len(), |i: int| data(chip, bytes[i]))
}

/// Addressing one chip at `page` and `col`, then writing `bytes` there.
pub open spec fn chip_burst(chip: ChipId, page: u8, col: u8, bytes: Seq<u8>) -> Seq<ChipOp> {
    seq![cmd(chip, page_cmd(page)), cmd(chip, addr_cmd(col))] + data_run(chip, bytes)
}

/// How many of `len` bytes that start at panel column `col` fall on the
/// left chip.
pub open spec fn left_share(col: int, len: int) -> int {
    if col < 64 {
        if len < 64 - col {
            len
        } else {
            64 - col
        }
    } else {
        0
    }
}

/// How many of `len` bytes that start at panel column `col` fall on the
/// right chip: what the left chip did not take, as far as the panel reaches.
pub open spec fn right_share(col: int, len: int) -> int {
    let rest = len - left_share(col, len);
    let room = 128 - (col + left_share(col, len));
    if rest < room {
        rest
    } else {
        room
    }
}

/// What a burst of `bytes` at `row` and panel column `col` asks of the two
/// chips: the left chip gets its share at `col`, the right chip the rest at
/// the column re-based to it.
pub open spec fn burst_plan(row: int, col: int, bytes: Seq<u8>) -> Seq<ChipOp> {
    let n1 = left_share(col, bytes.len() as int);
    let n2 = right_share(col, bytes.len() as int);
    let left = if col < 64 {
        chip_burst(ChipId::Chip1, row as u8, col as u8, bytes.take(n1))
    } else {
        Seq::empty()
    };
    let right = if bytes.len() > n1 {
        chip_burst(ChipId::Chip2, row as u8, (col + n1 - 64) as u8, bytes.subrange(n1, n1 + n2))
    } else {
        Seq::empty()
    };
    left + right
}

/// Switching both chips on or off, the left one first.
pub open spec fn onoff_plan(on: bool) -> Seq<ChipOp> {
    seq![cmd(ChipId::Chip1, onoff_cmd(on)), cmd(ChipId::Chip2, onoff_cmd(on))]
}

/// Filling one page of one chip with `byte`.
pub open spec fn page_fill(chip: ChipId, page: u8, byte: u8) -> Seq<ChipOp> {
    seq![cmd(chip, page_cmd(page))] + Seq::new(64, |i: int| data(chip, byte))
}

/// The stages of filling one chip with `byte`: start line and column reset,
/// then the eight pages in turn.
pub open spec fn chip_fill_parts(chip: ChipId, byte: u8) -> Seq<Seq<ChipOp>> {
    seq![seq![cmd(chip, startline_cmd(0)), cmd(chip, addr_cmd(0))]] + Seq::new(
        8,
        |p: int| page_fill(chip, p as u8, byte),
    )
}

/// Filling the whole panel with `byte`, the left chip first.
pub open spec fn fill_plan(byte: u8) -> Seq<ChipOp> {
    concat_all(chip_fill_parts(ChipId::Chip1, byte)) + concat_all(
        chip_fill_parts(ChipId::Chip2, byte),
    )
}

/// Switching the backlight to `on` when it was `was`: nothing if it does not
/// change.
pub open spec fn backlight_plan(was: bool, on: bool) -> Seq<ChipOp> {
    if on != was {
        seq![ChipOp::Backlight { on }]
    } else {
        Seq::empty()
    }
}

/// The panel as one surface of 128 columns by 8 pages, on top of the two
/// chips of 64 columns each.
pub struct Lcd128x64<L: ExpanderLink> {
    dev: NT7108<L>,
    backlight_on: bool,
}

impl<L: ExpanderLink> Lcd128x64<L> {
    /// The bus that the panel hangs on.
    pub closed spec fn bus(&self) -> NT7108<L> {
        self.dev
    }

    /// Everything asked of the two chips so far.
    pub open spec fn accesses(&self) -> Seq<Step<ChipOp>> {
        self.bus().accesses()
    }

    /// Everything asked of the link so far.
    pub open spec fn wire(&self) -> Seq<Step<WireOp>> {
        self.bus().wire()
    }

    /// The recorded backlight state.
    pub closed spec fn backlight(&self) -> bool {
        self.backlight_on
    }

    /// The bus is sound and the recorded backlight state is the one in the
    /// control register.
    pub open spec fn wf(&self) -> bool {
        &&& self.bus().wf()
        &&& self.backlight() == self.bus().backlight()
    }

    /// Brings up the bus on `link`. The backlight is off.
    pub fn new(link: L) -> (res: Result<Lcd128x64<L>, DisplayError>)
        ensures
            res matches Ok(lcd) ==> {
                &&& lcd.wf()
                &&& crate::trace::ran(lcd.wire(), crate::bus::init_plan(), true)
                &&& lcd.accesses() == Seq::<Step<ChipOp>>::empty()
                &&& !lcd.backlight()
            },
            res is Err ==> res->Err_0 == DisplayError::Transport,
    {
        match NT7108::new(link) {
            Ok(dev) => {
                assert(CTRL_DEFAULT & BL_MASK == 0) by (bit_vector);
                Ok(Lcd128x64 { dev, backlight_on: false })
            },
            Err(e) => Err(e),
        }
    }

    /// Hands the link back.
    pub fn release(self) -> (link: L)
        ensures
            link == self.bus().link(),
    {
        self.dev.release()
    }

    /// Switches the display of both chips on or off, the left one first.
    pub fn set_onoff(&mut self, on: bool) -> (res: Result<(), DisplayError>)
        requires
            old(self).wf(),
        ensures
            final(self).wf(),
            stepped(old(self).accesses(), final(self).accesses(), onoff_plan(on), res is Ok),
            final(self).backlight() == old(self).backlight(),
            res is Err ==> res->Err_0 == DisplayError::Transport,
    {
        let ghost t0 = self.accesses();
        let ghost plan = onoff_plan(on);
        proof {
            lemma_ran_nothing(t0);
            assert(plan.take(0) =~= Seq::<ChipOp>::empty());
        }
        let r = self.dev.set_onoff(ChipId::Chip1, on);
        proof {
            lemma_ran_push(t0, t0, plan, 0, r is Ok);
        }
        if r.is_err() {
            return r;
        }
        let ghost t1 = self.accesses();
        let r = self.dev.set_onoff(ChipId::Chip2, on);
        proof {
            lemma_ran_push(t0, t1, plan, 1, r is Ok);
            assert(plan.take(2) =~= plan);
        }
        r
    }

    /// Whether the backlight is on.
    pub fn get_backlight(&self) -> (on: bool)
        ensures
            on == self.backlight(),
    {
        self.backlight_on
    }

    /// Switches the backlight, which both chips share. Nothing is sent if it
    /// is in the requested state already.
    pub fn set_backlight(&mut self, on: bool) -> (res: Result<(), DisplayError>)
        requires
            old(self).wf(),
        ensures
            final(self).wf(),
            stepped(
                old(self).accesses(),
                final(self).accesses(),
                backlight_plan(old(self).backlight(), on),
                res is Ok,
            ),
            res is Ok ==> final(self).backlight() == on,
            res is Err ==> final(self).backlight() == old(self).backlight(),
            res is Err ==> res->Err_0 == DisplayError::Transport,
    {
        if on != self.backlight_on {
            let ghost t0 = self.accesses();
            let r = self.dev.set_backlight(on);
            proof {
                crate::trace::lemma_ran_one(t0, ChipOp::Backlight { on }, r is Ok);
            }
            if r.is_err() {
                return r;
            }
            self.backlight_on = on;
        } else {
            proof {
                lemma_ran_nothing(self.accesses());
            }
        }
        Ok(())
    }

    /// Addresses `chip` at `page` and `col` and writes `n` bytes of `bytes`
    /// there, from index `from` on.
    fn send_to_chip(
        &mut self,
        chip: ChipId,
        page: u8,
        col: u8,
        bytes: &[u8],
        from: usize,
        n: usize,
    ) -> (res: Result<(), DisplayError>)
        requires
            old(self).wf(),
            from + n <= bytes@.len(),
        ensures
            final(self).wf(),
            stepped(
                old(self).accesses(),
                final(self).accesses(),
                chip_burst(chip, page, col, bytes@.subrange(from as int, from + n)),
                res is Ok,
            ),
            final(self).backlight() == old(self).backlight(),
            res is Err ==> res->Err_0 == DisplayError::Transport,
    {
        let ghost t0 = self.accesses();
        let ghost part = bytes@.subrange(from as int, from + n);
        let ghost plan = chip_burst(chip, page, col, part);
        proof {
            lemma_ran_nothing(t0);
            assert(plan.take(0) =~= Seq::<ChipOp>::empty());
        }
        let r = self.dev.set_page(chip, page);
        proof {
            lemma_ran_push(t0, t0, plan, 0, r is Ok);
        }
        if r.is_err() {
            return r;
        }
        let ghost t1 = self.accesses();
        let r = self.dev.set_addr(chip, col);
        proof {
            lemma_ran_push(t0, t1, plan, 1, r is Ok);
        }
        if r.is_err() {
            return r;
        }
        let total = bytes.len();
        let mut j: usize = 0;
        while j < n
            invariant
                j <= n,
                from + n <= bytes@.len(),
                total == bytes@.len(),
                self.wf(),
                self.backlight() == old(self).backlight(),
                t0 == old(self).accesses(),
                part == bytes@.subrange(from as int, from + n),
                plan == chip_burst(chip, page, col, part),
                stepped(t0, self.accesses(), plan.take(2 + j), true),
            decreases n - j,
        {
            let ghost t = self.accesses();
            let r = self.dev.write_data(chip, bytes[from + j]);
            proof {
                lemma_ran_push(t0, t, plan, 2 + j, r is Ok);
            }
            if r.is_err() {
                return r;
            }
            j += 1;
        }
        proof {
            assert(plan.take(2 + n) =~= plan);
        }
        Ok(())
    }

    /// Fills one chip with `byte`.
    fn fill_chip(&mut self, chip: ChipId, byte: u8) -> (res: Result<(), DisplayError>)
        requires
            old(self).wf(),
        ensures
            final(self).wf(),
            stepped(
                old(self).accesses(),
                final(self).accesses(),
                concat_all(chip_fill_parts(chip, byte)),
                res is Ok,
            ),
            final(self).backlight() == old(self).backlight(),
            res is Err ==> res->Err_0 == DisplayError::Transport,
    {
        let ghost t0 = self.accesses();
        let ghost parts = chip_fill_parts(chip, byte);
        proof {
            lemma_ran_nothing(t0);
            lemma_concat_whole(parts);
        }
        let ghost head = parts[0];
        proof {
            assert(head.take(0) =~= Seq::<ChipOp>::empty());
        }
        let r = self.dev.set_startline(chip, 0);
        proof {
            lemma_ran_push(t0, t0, head, 0, r is Ok);
            if r is Err {
                lemma_ran_part(t0, t0, self.accesses(), parts, 0, false);
            }
        }
        if r.is_err() {
            return r;
        }
        let ghost t1 = self.accesses();
        let r = self.dev.set_addr(chip, 0);
        proof {
            lemma_ran_push(t0, t1, head, 1, r is Ok);
            assert(head.take(2) =~= head);
            lemma_ran_part(t0, t0, self.accesses(), parts, 0, r is Ok);
        }
        if r.is_err() {
            return r;
        }
        let mut p: u8 = 0;
        while p < 8
            invariant
                p <= 8,
                self.wf(),
                self.backlight() == old(self).backlight(),
                t0 == old(self).accesses(),
                parts == chip_fill_parts(chip, byte),
                stepped(t0, self.accesses(), concat_all(parts.take(1 + p)), true),
            decreases 8 - p,
        {
            let ghost tp = self.accesses();
            let ghost page = parts[1 + p];
            proof {
                lemma_ran_nothing(tp);
                assert(page.take(0) =~= Seq::<ChipOp>::empty());
                assert(page == page_fill(chip, p, byte));
            }
            let r = self.dev.set_page(chip, p);
            proof {
                lemma_ran_push(tp, tp, page, 0, r is Ok);
                if r is Err {
                    lemma_ran_part(t0, tp, self.accesses(), parts, 1 + p, false);
                }
            }
            if r.is_err() {
                return r;
            }
            let mut i: usize = 0;
            while i < 64
                invariant
                    i <= 64,
                    p < 8,
                    self.wf(),
                    self.backlight() == old(self).backlight(),
                    page == page_fill(chip, p, byte),
                    stepped(tp, self.accesses(), page.take(1 + i), true),
                    t0 == old(self).accesses(),
                    parts == chip_fill_parts(chip, byte),
                    page == parts[1 + p],
                    stepped(t0, tp, concat_all(parts.take(1 + p)), true),
                decreases 64 - i,
            {
                let ghost t = self.accesses();
                let r = self.dev.write_data(chip, byte);
                proof {
                    lemma_ran_push(tp, t, page, 1 + i, r is Ok);
                    if r is Err {
                        lemma_ran_part(t0, tp, self.accesses(), parts, 1 + p, false);
                    }
                }
                if r.is_err() {
                    return r;
                }
                i += 1;
            }
            proof {
                assert(page.take(65) =~= page);
                lemma_ran_part(t0, tp, self.accesses(), parts, 1 + p, true);
            }
            p += 1;
        }
        Ok(())
    }

    /// Writes `byte` to every column of every page of both chips.
    pub fn fill_byte(&mut self, byte: u8) -> (res: Result<(), DisplayError>)
        requires
            old(self).wf(),
        ensures
            final(self).wf(),
            stepped(old(self).accesses(), final(self).accesses(), fill_plan(byte), res is Ok),
            final(self).backlight() == old(self).backlight(),
            res is Err ==> res->Err_0 == DisplayError::Transport,
    {
        let ghost t0 = self.accesses();
        let r = self.fill_chip(ChipId::Chip1, byte);
        if r.is_err() {
            proof {
                lemma_ran_failed_prefix(
                    crate::trace::added(t0, self.accesses()),
                    concat_all(chip_fill_parts(ChipId::Chip1, byte)),
                    concat_all(chip_fill_parts(ChipId::Chip2, byte)),
                );
            }
            return r;
        }
        let ghost t1 = self.accesses();
        let r = self.fill_chip(ChipId::Chip2, byte);
        proof {
            lemma_ran_then(
                t0,
                t1,
                self.accesses(),
                concat_all(chip_fill_parts(ChipId::Chip1, byte)),
                concat_all(chip_fill_parts(ChipId::Chip2, byte)),
                r is Ok,
            );
        }
        r
    }

    /// Writes zero to every column of every page of both chips.
    pub fn clear(&mut self) -> (res: Result<(), DisplayError>)
        requires
            old(self).wf(),
        ensures
            final(self).wf(),
            stepped(old(self).accesses(), final(self).accesses(), fill_plan(0x00), res is Ok),
            final(self).backlight() == old(self).backlight(),
            res is Err ==> res->Err_0 == DisplayError::Transport,
    {
        self.fill_byte(0x00)
    }

    /// Writes `bytes` into page `row` from panel column `col` on. A run
    /// that crosses column 63 continues on the right chip; what would lie
    /// beyond column 127 is not written. Returns how many bytes were
    /// written. A start outside the panel is refused with `Geometry` before
    /// anything is sent.
    pub fn set_bytes_at(&mut self, row: usize, col: usize, bytes: &[u8]) -> (res: Result<
        usize,
        DisplayError,
    >)
        requires
            old(self).wf(),
        ensures
            final(self).wf(),
            final(self).backlight() == old(self).backlight(),
            row >= 8 || col >= 128 ==> res == Err::<usize, DisplayError>(DisplayError::Geometry)
                && final(self).accesses() == old(self).accesses() && final(self).wire() == old(self).wire(),
            row < 8 && col < 128 ==> {
                &&& stepped(
                    old(self).accesses(),
                    final(self).accesses(),
                    burst_plan(row as int, col as int, bytes@),
                    res is Ok,
                )
                &&& res matches Ok(n) ==> n == left_share(col as int, bytes@.len() as int)
                    + right_share(col as int, bytes@.len() as int)
                &&& res is Err ==> res->Err_0 == DisplayError::Transport
            },
    {
        if row >= LCD_N_BYTE_ROWS || col >= LCD_WIDTH {
            return Err(DisplayError::Geometry);
        }
        let n_bytes = bytes.len();
        let ghost t0 = self.accesses();
        let ghost n1 = left_share(col as int, n_bytes as int);
        let ghost n2 = right_share(col as int, n_bytes as int);
        let ghost left = if col < 64 {
            chip_burst(ChipId::Chip1, row as u8, col as u8, bytes@.take(n1))
        } else {
            Seq::empty()
        };
        let ghost right = if n_bytes > n1 {
            chip_burst(
                ChipId::Chip2,
                row as u8,
                (col + n1 - 64) as u8,
                bytes@.subrange(n1, n1 + n2),
            )
        } else {
            Seq::empty()
        };
        let mut n_written: usize = 0;
        if col < CHIP_WIDTH {
            let chip_n_bytes = if n_bytes < CHIP_WIDTH - col {
                n_bytes
            } else {
                CHIP_WIDTH - col
            };
            assert(bytes@.subrange(0, chip_n_bytes as int) =~= bytes@.take(n1));
            let r = self.send_to_chip(ChipId::Chip1, row as u8, col as u8, bytes, 0, chip_n_bytes);
            if r.is_err() {
                proof {
                    lemma_ran_failed_prefix(crate::trace::added(t0, self.accesses()), left, right);
                }
                return Err(DisplayError::Transport);
            }
            n_written = chip_n_bytes;
        } else {
            proof {
                lemma_ran_nothing(t0);
            }
        }
        let ghost t1 = self.accesses();
        if n_bytes > n_written {
            let chip_col = (col + n_written) - CHIP_WIDTH;
            let chip_n_bytes = if n_bytes - n_written < CHIP_WIDTH - chip_col {
                n_bytes - n_written
            } else {
                CHIP_WIDTH - chip_col
            };
            let r = self.send_to_chip(
                ChipId::Chip2,
                row as u8,
                chip_col as u8,
                bytes,
                n_written,
                chip_n_bytes,
            );
            proof {
                lemma_ran_then(t0, t1, self.accesses(), left, right, r is Ok);
            }
            if r.is_err() {
                return Err(DisplayError::Transport);
            }
            n_written = n_written + chip_n_bytes;
        } else {
            proof {
                lemma_ran_nothing(t1);
                lemma_ran_then(t0, t1, t1, left, right, true);
            }
        }
        Ok(n_written)
    }
}

} // verus!
