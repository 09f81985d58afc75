use vstd::prelude::*;
use crate::error::DisplayError;
use crate::expander::{
    attach_plan, heard_byte, read_frame, reset_plan, write_frame, MCP23S17, MCP23S17_GPIOA, MCP23S17_GPIOB,
    MCP23S17_IOCON, MCP23S17_IODIRA, MCP23S17_IODIRB, MCP23S17_OLATB, MCP23S17_WRITECMD,
};
use crate::link::{ExpanderLink, WireOp};
use crate::trace::{
    concat_all, lemma_concat_all_holds, lemma_concat_whole, lemma_ran_nothing, lemma_ran_one, lemma_ran_part, ran,
    stepped, Step,
};

verus! {

/// Enable strobe, bit 0 of the control register.
pub const E_MASK: u8 = 0x01;
/// Data (1) or instruction (0) select, bit 1.
pub const DI_MASK: u8 = 0x02;
/// Read (1) or write (0) select, bit 2.
pub const RW_MASK: u8 = 0x04;
/// Panel reset, active low, bit 3.
pub const RST_MASK: u8 = 0x08;
/// Chip select of the left controller, bit 4.
pub const CS1_MASK: u8 = 0x10;
/// Chip select of the right controller, bit 5.
pub const CS2_MASK: u8 = 0x20;
/// Backlight, bit 7.
pub const BL_MASK: u8 = 0x80;
/// Both chip selects.
pub const CS_MASK: u8 = 0x30;
/// The control register after start-up: strobe high, data, read, reset
/// released, no chip selected, backlight off.
pub const CTRL_DEFAULT: u8 = 0x0f;

/// One of the two controller chips. `Chip1` owns columns 0 to 63 of the
/// panel, `Chip2` columns 64 to 127.
#[derive(Clone, Copy, Debug, PartialEq, Eq, Structural)]
pub enum ChipId {
    Chip1,
    Chip2,
}

/// Direction of the eight data lines, seen from the expander.
#[derive(Clone, Copy, Debug, PartialEq, Eq, Structural)]
pub enum Direction {
    Input,
    Output,
}

/// What the bus layer is asked to do with the panel.
pub enum ChipOp {
    /// A byte written to one chip, as data or as an instruction.
    Write { chip: ChipId, is_data: bool, byte: u8 },
    /// A byte read from one chip: display data, or the status register.
    Read { chip: ChipId, is_data: bool },
    /// The backlight switched.
    Backlight { on: bool },
}

/// The control register with the slots under `mask` replaced by `bits`.
pub open spec fn ctrl_set(c: u8, mask: u8, bits: u8) -> u8 {
    (c & !mask) | bits
}

/// The cached control register after asking for `bits` under `mask`.
pub open spec fn ctrl_next(c: u8, mask: u8, bits: u8) -> u8 {
    if c & mask != bits {
        ctrl_set(c, mask, bits)
    } else {
        c
    }
}

/// One register write.
pub open spec fn reg_write(addr: u8, val: u8) -> Seq<WireOp> {
    seq![WireOp::Write(write_frame(addr, val))]
}

/// One blocking wait.
pub open spec fn wait(micros: nat) -> Seq<WireOp> {
    seq![WireOp::Pause(micros)]
}

/// Asking for `bits` under `mask` writes the control register only if that
/// changes it.
pub open spec fn ctrl_plan(c: u8, mask: u8, bits: u8) -> Seq<WireOp> {
    if c & mask != bits {
        reg_write(MCP23S17_GPIOB, ctrl_set(c, mask, bits))
    } else {
        Seq::empty()
    }
}

/// The slots that the driver updates, with the values it gives them.
pub open spec fn field_update(mask: u8, bits: u8) -> bool {
    ||| mask == E_MASK && (bits == 0x00 || bits == 0x01)
    ||| mask == RW_MASK && (bits == 0x00 || bits == 0x04)
    ||| mask == 0x06 && (bits == 0x00 || bits == 0x02 || bits == 0x04 || bits == 0x06)
    ||| mask == RST_MASK && (bits == 0x00 || bits == 0x08)
    ||| mask == CS_MASK && (bits == 0x00 || bits == 0x10 || bits == 0x20)
    ||| mask == BL_MASK && (bits == 0x00 || bits == 0x80)
}

/// The select bit of a chip.
pub open spec fn select_bits(chip: ChipId) -> u8 {
    match chip {
        ChipId::Chip1 => CS1_MASK,
        ChipId::Chip2 => CS2_MASK,
    }
}

/// The data-or-instruction bit.
pub open spec fn di_bits(is_data: bool) -> u8 {
    if is_data {
        DI_MASK
    } else {
        0x00
    }
}

/// The backlight bit.
pub open spec fn bl_bits(on: bool) -> u8 {
    if on {
        BL_MASK
    } else {
        0x00
    }
}

/// The control register once a transfer is over: strobe high, read selected,
/// no chip selected, reset and backlight as they were.
pub open spec fn idle_ctrl(c: u8, is_data: bool) -> u8 {
    (c & 0xc8) | 0x05 | di_bits(is_data)
}

/// The stages of writing `b` to `chip`, starting from control register `c0`.
pub open spec fn write_parts(c0: u8, chip: ChipId, is_data: bool, b: u8) -> Seq<Seq<WireOp>> {
    let c1 = ctrl_next(c0, 0x06, di_bits(is_data));
    let c2 = ctrl_next(c1, CS_MASK, select_bits(chip));
    let c3 = ctrl_next(c2, E_MASK, 0x00);
    let c4 = ctrl_next(c3, CS_MASK, 0x00);
    let c5 = ctrl_next(c4, E_MASK, E_MASK);
    seq![
        ctrl_plan(c0, 0x06, di_bits(is_data)),
        reg_write(MCP23S17_IODIRA, 0x00),
        reg_write(MCP23S17_GPIOA, b),
        ctrl_plan(c1, CS_MASK, select_bits(chip)),
        wait(1),
        ctrl_plan(c2, E_MASK, 0x00),
        wait(1),
        ctrl_plan(c3, CS_MASK, 0x00),
        ctrl_plan(c4, E_MASK, E_MASK),
        reg_write(MCP23S17_IODIRA, 0xff),
        ctrl_plan(c5, RW_MASK, RW_MASK),
    ]
}

/// The control register after a complete write.
pub open spec fn write_end(c0: u8, chip: ChipId, is_data: bool) -> u8 {
    let c1 = ctrl_next(c0, 0x06, di_bits(is_data));
    let c2 = ctrl_next(c1, CS_MASK, select_bits(chip));
    let c3 = ctrl_next(c2, E_MASK, 0x00);
    let c4 = ctrl_next(c3, CS_MASK, 0x00);
    let c5 = ctrl_next(c4, E_MASK, E_MASK);
    ctrl_next(c5, RW_MASK, RW_MASK)
}

/// Everything that writing `b` to `chip` asks of the link.
pub open spec fn write_plan(c0: u8, chip: ChipId, is_data: bool, b: u8) -> Seq<WireOp> {
    concat_all(write_parts(c0, chip, is_data, b))
}

/// The stages of reading a byte from `chip`, starting from control register
/// `c0`.
pub open spec fn read_parts(c0: u8, chip: ChipId, is_data: bool) -> Seq<Seq<WireOp>> {
    let di_rw = (di_bits(is_data) | RW_MASK);
    let c1 = ctrl_next(c0, 0x06, di_rw);
    let c2 = ctrl_next(c1, CS_MASK, select_bits(chip));
    let c3 = ctrl_next(c2, E_MASK, E_MASK);
    seq![
        reg_write(MCP23S17_IODIRA, 0xff),
        ctrl_plan(c0, 0x06, di_rw),
        ctrl_plan(c1, CS_MASK, select_bits(chip)),
        ctrl_plan(c2, E_MASK, E_MASK),
        wait(1),
        seq![WireOp::Transfer(read_frame(MCP23S17_GPIOA))],
        ctrl_plan(c3, CS_MASK, 0x00),
    ]
}

/// The control register after a complete read.
pub open spec fn read_end(c0: u8, chip: ChipId, is_data: bool) -> u8 {
    let di_rw = (di_bits(is_data) | RW_MASK);
    let c1 = ctrl_next(c0, 0x06, di_rw);
    let c2 = ctrl_next(c1, CS_MASK, select_bits(chip));
    let c3 = ctrl_next(c2, E_MASK, E_MASK);
    ctrl_next(c3, CS_MASK, 0x00)
}

/// Everything that reading a byte from `chip` asks of the link.
pub open spec fn read_plan(c0: u8, chip: ChipId, is_data: bool) -> Seq<WireOp> {
    concat_all(read_parts(c0, chip, is_data))
}

/// The stages of bringing up the expander and the panel.
pub open spec fn init_parts() -> Seq<Seq<WireOp>> {
    seq![
        attach_plan(),
        reset_plan(),
        reg_write(MCP23S17_IOCON, 0x20),
        reg_write(MCP23S17_IODIRA, 0xff),
        reg_write(MCP23S17_OLATB, CTRL_DEFAULT),
        reg_write(MCP23S17_IODIRB, 0x00),
        reg_write(MCP23S17_GPIOB, 0x07),
        wait(1),
        reg_write(MCP23S17_GPIOB, CTRL_DEFAULT),
        wait(1),
    ]
}

/// Everything that bringing up the expander and the panel asks of the link.
pub open spec fn init_plan() -> Seq<WireOp> {
    concat_all(init_parts())
}

/// The value that a step wrote to the control register, if it is a
/// successful write to the port or to its latch.
pub open spec fn ctrl_written(s: Step<WireOp>) -> Option<u8> {
    match s.op {
        WireOp::Write(f) => if s.ok && f.len() == 3 && f[0] == MCP23S17_WRITECMD && (f[1]
            == MCP23S17_GPIOB || f[1] == MCP23S17_OLATB) {
            Some(f[2])
        } else {
            None
        },
        _ => None,
    }
}

/// The value last written to the control register with success, if any.
pub open spec fn last_ctrl(t: Seq<Step<WireOp>>) -> Option<u8>
    decreases t.len(),
{
    if t.len() == 0 {
        None
    } else {
        match ctrl_written(t.last()) {
            Some(v) => Some(v),
            None => last_ctrl(t.drop_last()),
        }
    }
}

/// One more step changes the last written value only if it writes one.
pub proof fn lemma_last_ctrl_push(t: Seq<Step<WireOp>>, s: Step<WireOp>)
    ensures
        last_ctrl(t.push(s)) == match ctrl_written(s) {
            Some(v) => Some(v),
            None => last_ctrl(t),
        },
{
    assert(t.push(s).drop_last() =~= t);
}

proof fn lemma_field_keeps_select(c: u8, mask: u8, bits: u8)
    by (bit_vector)
    requires
        field_update(mask, bits),
    ensures
        mask != 0x30 ==> ctrl_set(c, mask, bits) & 0x30 == c & 0x30,
        mask == 0x30 ==> ctrl_set(c, mask, bits) & 0x30 == bits,
        mask != 0x80 ==> ctrl_set(c, mask, bits) & 0x80 == c & 0x80,
{
}

/// Whatever the control register held before, a complete write leaves the
/// bus idle: strobe high, read selected, both chips deselected.
pub proof fn lemma_write_leaves_bus_idle(c0: u8, chip: ChipId, is_data: bool)
    ensures
        write_end(c0, chip, is_data) == idle_ctrl(c0, is_data),
        idle_ctrl(c0, is_data) & CS_MASK == 0,
{
    lemma_transfer_ends_idle(c0, di_bits(is_data), select_bits(chip));
}

/// Whatever the control register held before, a complete read leaves the
/// bus idle: strobe high, read selected, both chips deselected.
pub proof fn lemma_read_leaves_bus_idle(c0: u8, chip: ChipId, is_data: bool)
    ensures
        read_end(c0, chip, is_data) == idle_ctrl(c0, is_data),
        idle_ctrl(c0, is_data) & CS_MASK == 0,
{
    lemma_transfer_ends_idle(c0, di_bits(is_data), select_bits(chip));
}

proof fn lemma_transfer_ends_idle(c0: u8, di: u8, sel: u8)
    by (bit_vector)
    requires
        di == 0x00 || di == 0x02,
        sel == 0x10 || sel == 0x20,
    ensures
        ctrl_next(
            ctrl_next(
                ctrl_next(
                    ctrl_next(ctrl_next(ctrl_next(c0, 0x06, di), 0x30, sel), 0x01, 0x00),
                    0x30,
                    0x00,
                ),
                0x01,
                0x01,
            ),
            0x04,
            0x04,
        ) == (c0 & 0xc8) | 0x05 | di,
        ctrl_next(
            ctrl_next(ctrl_next(ctrl_next(c0, 0x06, di | 0x04), 0x30, sel), 0x01, 0x01),
            0x30,
            0x00,
        ) == (c0 & 0xc8) | 0x05 | di,
        ((c0 & 0xc8) | 0x05 | di) & 0x30 == 0,
{
}

/// Whether an operation writes a control register value that selects both
/// chips at once.
pub open spec fn selects_both(op: WireOp) -> bool {
    op matches WireOp::Write(f) && f.len() == 3 && f[1] == MCP23S17_GPIOB && f[2] & CS_MASK
        == CS_MASK
}

proof fn lemma_ctrl_plan_selects_one(c: u8, mask: u8, bits: u8)
    requires
        field_update(mask, bits),
        c & CS_MASK != CS_MASK,
    ensures
        ctrl_next(c, mask, bits) & CS_MASK != CS_MASK,
        forall|j: int|
            0 <= j < ctrl_plan(c, mask, bits).len() ==> !selects_both(
                #[trigger] ctrl_plan(c, mask, bits)[j],
            ),
{
    lemma_field_keeps_select(c, mask, bits);
}

/// At no step of a write to a chip are both chips selected: no control
/// register value that goes out selects the two at once.
pub proof fn lemma_write_selects_one_chip(c0: u8, chip: ChipId, is_data: bool, b: u8)
    requires
        c0 & CS_MASK != CS_MASK,
    ensures
        forall|i: int|
            0 <= i < write_plan(c0, chip, is_data, b).len() ==> !selects_both(
                #[trigger] write_plan(c0, chip, is_data, b)[i],
            ),
{
    let c1 = ctrl_next(c0, 0x06, di_bits(is_data));
    let c2 = ctrl_next(c1, CS_MASK, select_bits(chip));
    let c3 = ctrl_next(c2, E_MASK, 0x00);
    let c4 = ctrl_next(c3, CS_MASK, 0x00);
    let c5 = ctrl_next(c4, E_MASK, E_MASK);
    lemma_ctrl_plan_selects_one(c0, 0x06, di_bits(is_data));
    lemma_ctrl_plan_selects_one(c1, CS_MASK, select_bits(chip));
    lemma_ctrl_plan_selects_one(c2, E_MASK, 0x00);
    lemma_ctrl_plan_selects_one(c3, CS_MASK, 0x00);
    lemma_ctrl_plan_selects_one(c4, E_MASK, E_MASK);
    lemma_ctrl_plan_selects_one(c5, RW_MASK, RW_MASK);
    let parts = write_parts(c0, chip, is_data, b);
    assert forall|k: int, j: int| 0 <= k < parts.len() && 0 <= j < parts[k].len() implies !selects_both(
        #[trigger] parts[k][j],
    ) by {
    }
    lemma_concat_all_holds(parts, |op: WireOp| !selects_both(op));
}

/// At no step of a read from a chip are both chips selected.
pub proof fn lemma_read_selects_one_chip(c0: u8, chip: ChipId, is_data: bool)
    requires
        c0 & CS_MASK != CS_MASK,
    ensures
        forall|i: int|
            0 <= i < read_plan(c0, chip, is_data).len() ==> !selects_both(
                #[trigger] read_plan(c0, chip, is_data)[i],
            ),
{
    let di_rw = (di_bits(is_data) | RW_MASK);
    assert(di_rw == 0x04 || di_rw == 0x06) by (bit_vector)
        requires
            di_rw == 0x00u8 | 0x04 || di_rw == 0x02u8 | 0x04,
    ;
    let c1 = ctrl_next(c0, 0x06, di_rw);
    let c2 = ctrl_next(c1, CS_MASK, select_bits(chip));
    let c3 = ctrl_next(c2, E_MASK, E_MASK);
    lemma_ctrl_plan_selects_one(c0, 0x06, di_rw);
    lemma_ctrl_plan_selects_one(c1, CS_MASK, select_bits(chip));
    lemma_ctrl_plan_selects_one(c2, E_MASK, E_MASK);
    lemma_ctrl_plan_selects_one(c3, CS_MASK, 0x00);
    let parts = read_parts(c0, chip, is_data);
    assert forall|k: int, j: int| 0 <= k < parts.len() && 0 <= j < parts[k].len() implies !selects_both(
        #[trigger] parts[k][j],
    ) by {
    }
    lemma_concat_all_holds(parts, |op: WireOp| !selects_both(op));
}

/// The instruction that switches a chip's display on or off.
pub open spec fn onoff_cmd(on: bool) -> u8 {
    0x3e | if on {
        0x01u8
    } else {
        0x00u8
    }
}

/// The instruction that sets a chip's column address, 0 to 63.
pub open spec fn addr_cmd(yaddr: u8) -> u8 {
    0x40 | (0x3f & yaddr)
}

/// The instruction that sets a chip's page, 0 to 7.
pub open spec fn page_cmd(xaddr: u8) -> u8 {
    0xb8 | (0x07 & xaddr)
}

/// The instruction that sets the display line shown at the top, 0 to 63.
pub open spec fn startline_cmd(startline: u8) -> u8 {
    0xc0 | (0x3f & startline)
}

/// What a read from a chip makes of the answers of the link: one that
/// went through has heard three bytes and returns the last of them; one
/// that failed has failed before it heard anything, or heard an answer that
/// was no three bytes, or heard its byte and failed after.
pub open spec fn read_heard(
    before: Seq<Option<Seq<u8>>>,
    now: Seq<Option<Seq<u8>>>,
    res: Result<u8, DisplayError>,
) -> bool {
    match res {
        Ok(_) => heard_byte(before, now, res),
        Err(_) => now == before || (now.len() == before.len() + 1 && now == before.push(
            now.last(),
        )),
    }
}

/// What an access to the panel asks of the link when the control register
/// holds `c`.
pub open spec fn op_plan(c: u8, op: ChipOp) -> Seq<WireOp> {
    match op {
        ChipOp::Write { chip, is_data, byte } => write_plan(c, chip, is_data, byte),
        ChipOp::Read { chip, is_data } => read_plan(c, chip, is_data),
        ChipOp::Backlight { on } => ctrl_plan(c, BL_MASK, bl_bits(on)),
    }
}

/// The control register after everything in `t`.
pub open spec fn ctrl_after(t: Seq<Step<WireOp>>) -> u8 {
    last_ctrl(t)->Some_0
}

/// Access `k` is accounted for: between its two marks the link was asked
/// for its bus cycles, starting from the control register as it was then.
pub open spec fn explained(
    wire: Seq<Step<WireOp>>,
    marks: Seq<int>,
    accesses: Seq<Step<ChipOp>>,
    k: int,
) -> bool {
    &&& 0 <= marks[k] <= marks[k + 1] <= wire.len()
    &&& stepped(
        wire.take(marks[k]),
        wire.take(marks[k + 1]),
        op_plan(ctrl_after(wire.take(marks[k])), accesses[k].op),
        accesses[k].ok,
    )
}

/// Everything asked of the link is accounted for: up to the first mark the
/// start-up sequence, then access after access, up to the end.
#[verifier::opaque]
pub open spec fn accounted(
    wire: Seq<Step<WireOp>>,
    marks: Seq<int>,
    accesses: Seq<Step<ChipOp>>,
) -> bool {
    &&& marks.len() == accesses.len() + 1
    &&& 0 <= marks[0] <= wire.len()
    &&& marks.last() == wire.len()
    &&& ran(wire.take(marks[0]), init_plan(), true)
    &&& forall|k: int| 0 <= k < accesses.len() ==> #[trigger] explained(wire, marks, accesses, k)
}

/// One more access keeps the account.
pub proof fn lemma_account_push(
    wire0: Seq<Step<WireOp>>,
    wire1: Seq<Step<WireOp>>,
    marks: Seq<int>,
    accesses: Seq<Step<ChipOp>>,
    op: ChipOp,
    ok: bool,
)
    requires
        accounted(wire0, marks, accesses),
        stepped(wire0, wire1, op_plan(ctrl_after(wire0), op), ok),
    ensures
        accounted(wire1, marks.push(wire1.len() as int), accesses.push(Step { op, ok })),
{
    reveal(accounted);
    let marks1 = marks.push(wire1.len() as int);
    let accesses1 = accesses.push(Step { op, ok });
    assert(wire1.take(wire0.len() as int) == wire0);
    assert(wire0.take(marks[0]) =~= wire1.take(marks[0])) by {
        assert(wire1.take(wire0.len() as int).take(marks[0]) =~= wire1.take(marks[0]));
    }
    assert forall|k: int| 0 <= k < accesses1.len() implies #[trigger] explained(
        wire1,
        marks1,
        accesses1,
        k,
    ) by {
        if k < accesses.len() {
            assert(explained(wire0, marks, accesses, k));
            assert(wire1.take(wire0.len() as int).take(marks[k]) =~= wire1.take(marks[k]));
            assert(wire1.take(wire0.len() as int).take(marks[k + 1]) =~= wire1.take(marks[k + 1]));
        } else {
            assert(marks1[k] == wire0.len());
            assert(wire1.take(wire1.len() as int) =~= wire1);
        }
    }
}

/// The parallel bus of the two controller chips, emulated through the
/// expander: port A carries the data lines, port B the control register.
/// Keeps a copy of the control register, and for the proofs the list of what
/// it was asked to do with the panel.
pub struct NT7108<L: ExpanderLink> {
    iface: MCP23S17<L>,
    ctrl_bits: u8,
    log: Ghost<Seq<Step<ChipOp>>>,
    marks: Ghost<Seq<int>>,
}

impl<L: ExpanderLink> NT7108<L> {
    /// Everything asked of the link so far.
    pub closed spec fn wire(&self) -> Seq<Step<WireOp>> {
        self.iface.trace()
    }

    /// The cached copy of the control register.
    pub closed spec fn ctrl(&self) -> u8 {
        self.ctrl_bits
    }

    /// Everything asked of the panel so far, with whether it went through.
    pub closed spec fn accesses(&self) -> Seq<Step<ChipOp>> {
        self.log@
    }

    /// How much had been asked of the link when the bus was up, and after
    /// each access to the panel.
    pub closed spec fn marks(&self) -> Seq<int> {
        self.marks@
    }

    /// What came in during every register read; nothing where the link
    /// failed.
    pub closed spec fn heard(&self) -> Seq<Option<Seq<u8>>> {
        self.iface.heard()
    }

    /// The cached control register is the value last written with success,
    /// and it never selects both chips.
    pub open spec fn sound(&self) -> bool {
        &&& last_ctrl(self.wire()) == Some(self.ctrl())
        &&& self.ctrl() & CS_MASK != CS_MASK
    }

    /// The bus is sound, and everything asked of the link is accounted for:
    /// the start-up sequence, then for each access to the panel its bus
    /// cycles, up to the first that failed.
    pub open spec fn wf(&self) -> bool {
        &&& self.sound()
        &&& accounted(self.wire(), self.marks(), self.accesses())
    }

    /// This bus is `before` after one attempt to write `byte` to `chip`:
    /// the link was asked for the bus cycles of that write, up to the first
    /// that failed, and the access list holds one more entry.
    pub open spec fn wrote(
        &self,
        before: Self,
        chip: ChipId,
        is_data: bool,
        byte: u8,
        done: bool,
    ) -> bool {
        &&& self.wf()
        &&& stepped(
            before.wire(),
            self.wire(),
            write_plan(before.ctrl(), chip, is_data, byte),
            done,
        )
        &&& done ==> self.ctrl() == idle_ctrl(before.ctrl(), is_data)
        &&& self.accesses() == before.accesses().push(
            Step { op: ChipOp::Write { chip, is_data, byte }, ok: done },
        )
        &&& self.marks() == before.marks().push(self.wire().len() as int)
        &&& self.heard() == before.heard()
        &&& self.backlight() == before.backlight()
    }

    /// This bus is `before` after one attempt to read a byte from `chip`.
    pub open spec fn fetched(
        &self,
        before: Self,
        chip: ChipId,
        is_data: bool,
        res: Result<u8, DisplayError>,
    ) -> bool {
        let done = res is Ok;
        &&& self.wf()
        &&& read_heard(before.heard(), self.heard(), res)
        &&& self.marks() == before.marks().push(self.wire().len() as int)
        &&& stepped(before.wire(), self.wire(), read_plan(before.ctrl(), chip, is_data), done)
        &&& done ==> self.ctrl() == idle_ctrl(before.ctrl(), is_data)
        &&& self.accesses() == before.accesses().push(
            Step { op: ChipOp::Read { chip, is_data }, ok: done },
        )
        &&& self.backlight() == before.backlight()
    }

    /// Whether the backlight bit is set in the control register.
    pub open spec fn backlight(&self) -> bool {
        self.ctrl() & BL_MASK != 0
    }

    /// Takes over `link`, resets the expander, configures its two ports and
    /// pulses the panel's reset line.
    pub fn new(link: L) -> (res: Result<NT7108<L>, DisplayError>)
        ensures
            res matches Ok(dev) ==> {
                &&& dev.wf()
                &&& ran(dev.wire(), init_plan(), true)
                &&& dev.marks() == seq![dev.wire().len() as int]
                &&& dev.heard() == Seq::<Option<Seq<u8>>>::empty()
                &&& dev.ctrl() == CTRL_DEFAULT
                &&& dev.accesses() == Seq::<Step<ChipOp>>::empty()
            },
            res is Err ==> res->Err_0 == DisplayError::Transport,
    {
        let ghost parts = init_parts();
        let ghost e = Seq::<Step<WireOp>>::empty();
        let mut iface = MCP23S17::new(link);
        let ghost mut t = iface.trace();
        proof {
            lemma_concat_whole(parts);
            lemma_ran_nothing(e);
            assert(crate::trace::added(e, t) == t);
            assert(t.take(0) == e);
            lemma_ran_part(e, e, t, parts, 0, true);
        }
        iface.reset();
        proof {
            lemma_ran_part(e, t, iface.trace(), parts, 1, true);
            t = iface.trace();
        }
        let r = iface.write_reg(MCP23S17_IOCON, 0x20);
        proof {
            lemma_ran_one(t, WireOp::Write(write_frame(MCP23S17_IOCON, 0x20)), r is Ok);
            lemma_ran_part(e, t, iface.trace(), parts, 2, r is Ok);
            t = iface.trace();
        }
        if r.is_err() {
            return Err(DisplayError::Transport);
        }
        let r = iface.write_reg(MCP23S17_IODIRA, 0xff);
        proof {
            lemma_ran_one(t, WireOp::Write(write_frame(MCP23S17_IODIRA, 0xff)), r is Ok);
            lemma_ran_part(e, t, iface.trace(), parts, 3, r is Ok);
            t = iface.trace();
        }
        if r.is_err() {
            return Err(DisplayError::Transport);
        }
        let r = iface.write_reg(MCP23S17_OLATB, CTRL_DEFAULT);
        proof {
            lemma_ran_one(t, WireOp::Write(write_frame(MCP23S17_OLATB, CTRL_DEFAULT)), r is Ok);
            lemma_ran_part(e, t, iface.trace(), parts, 4, r is Ok);
            lemma_last_ctrl_push(
                t,
                Step { op: WireOp::Write(write_frame(MCP23S17_OLATB, CTRL_DEFAULT)), ok: r is Ok },
            );
            t = iface.trace();
        }
        if r.is_err() {
            return Err(DisplayError::Transport);
        }
        let r = iface.write_reg(MCP23S17_IODIRB, 0x00);
        proof {
            lemma_ran_one(t, WireOp::Write(write_frame(MCP23S17_IODIRB, 0x00)), r is Ok);
            lemma_ran_part(e, t, iface.trace(), parts, 5, r is Ok);
            lemma_last_ctrl_push(
                t,
                Step { op: WireOp::Write(write_frame(MCP23S17_IODIRB, 0x00)), ok: r is Ok },
            );
            t = iface.trace();
        }
        if r.is_err() {
            return Err(DisplayError::Transport);
        }
        assert(CTRL_DEFAULT & CS_MASK != CS_MASK && CTRL_DEFAULT & RST_MASK != 0x00 && ctrl_set(
            CTRL_DEFAULT,
            RST_MASK,
            0x00,
        ) == 0x07 && 0x07u8 & RST_MASK != RST_MASK && ctrl_set(0x07, RST_MASK, RST_MASK)
            == CTRL_DEFAULT) by (bit_vector);
        let ghost up = iface.trace().len() as int;
        let mut dev = NT7108 {
            iface,
            ctrl_bits: CTRL_DEFAULT,
            log: Ghost(Seq::empty()),
            marks: Ghost(Seq::empty()),
        };
        let r = dev.update_ctrl_bits(RST_MASK, 0x00);
        proof {
            lemma_ran_part(e, t, dev.wire(), parts, 6, r is Ok);
            t = dev.wire();
        }
        if r.is_err() {
            return Err(DisplayError::Transport);
        }
        dev.settle();
        proof {
            lemma_ran_part(e, t, dev.wire(), parts, 7, true);
            t = dev.wire();
        }
        let r = dev.update_ctrl_bits(RST_MASK, RST_MASK);
        proof {
            lemma_ran_part(e, t, dev.wire(), parts, 8, r is Ok);
            t = dev.wire();
        }
        if r.is_err() {
            return Err(DisplayError::Transport);
        }
        dev.settle();
        proof {
            lemma_ran_part(e, t, dev.wire(), parts, 9, true);
            assert(crate::trace::added(e, dev.wire()) == dev.wire());
            dev.marks@ = seq![dev.wire().len() as int];
            assert(dev.wire().take(dev.wire().len() as int) =~= dev.wire());
            reveal(accounted);
        }
        Ok(dev)
    }

    /// The link that the bus hangs on.
    pub closed spec fn link(&self) -> L {
        self.iface.link()
    }

    /// Hands the link back.
    pub fn release(self) -> (link: L)
        ensures
            link == self.link(),
    {
        self.iface.release()
    }

    /// The settle time around every change of the strobe and of the reset
    /// line: one microsecond.
    fn settle(&mut self)
        requires
            old(self).sound(),
        ensures
            final(self).sound(),
            final(self).marks() == old(self).marks(),
            final(self).heard() == old(self).heard(),
            stepped(old(self).wire(), final(self).wire(), wait(1), true),
            final(self).ctrl() == old(self).ctrl(),
            final(self).accesses() == old(self).accesses(),
    {
        let ghost t = self.wire();
        self.iface.pause(1);
        proof {
            lemma_ran_one(t, WireOp::Pause(1), true);
            lemma_last_ctrl_push(t, Step { op: WireOp::Pause(1), ok: true });
        }
    }

    fn read_bus(&mut self) -> (res: Result<u8, DisplayError>)
        requires
            old(self).sound(),
        ensures
            final(self).sound(),
            final(self).marks() == old(self).marks(),
            heard_byte(old(self).heard(), final(self).heard(), res),
            stepped(
                old(self).wire(),
                final(self).wire(),
                seq![WireOp::Transfer(read_frame(MCP23S17_GPIOA))],
                res is Ok,
            ),
            final(self).ctrl() == old(self).ctrl(),
            final(self).accesses() == old(self).accesses(),
            res is Err ==> res->Err_0 == DisplayError::Transport,
    {
        let ghost t = self.wire();
        let res = self.iface.read_reg(MCP23S17_GPIOA);
        proof {
            lemma_ran_one(t, WireOp::Transfer(read_frame(MCP23S17_GPIOA)), res is Ok);
            lemma_last_ctrl_push(
                t,
                Step { op: WireOp::Transfer(read_frame(MCP23S17_GPIOA)), ok: res is Ok },
            );
        }
        res
    }

    fn write_bus(&mut self, data: u8) -> (res: Result<(), DisplayError>)
        requires
            old(self).sound(),
        ensures
            final(self).sound(),
            final(self).marks() == old(self).marks(),
            final(self).heard() == old(self).heard(),
            stepped(
                old(self).wire(),
                final(self).wire(),
                reg_write(MCP23S17_GPIOA, data),
                res is Ok,
            ),
            final(self).ctrl() == old(self).ctrl(),
            final(self).accesses() == old(self).accesses(),
            res is Err ==> res->Err_0 == DisplayError::Transport,
    {
        let ghost t = self.wire();
        let res = self.iface.write_reg(MCP23S17_GPIOA, data);
        proof {
            lemma_ran_one(t, WireOp::Write(write_frame(MCP23S17_GPIOA, data)), res is Ok);
            lemma_last_ctrl_push(
                t,
                Step { op: WireOp::Write(write_frame(MCP23S17_GPIOA, data)), ok: res is Ok },
            );
        }
        res
    }

    fn set_busdir(&mut self, dir: Direction) -> (res: Result<(), DisplayError>)
        requires
            old(self).sound(),
        ensures
            final(self).sound(),
            final(self).marks() == old(self).marks(),
            final(self).heard() == old(self).heard(),
            stepped(
                old(self).wire(),
                final(self).wire(),
                reg_write(
                    MCP23S17_IODIRA,
                    match dir {
                        Direction::Output => 0x00u8,
                        Direction::Input => 0xffu8,
                    },
                ),
                res is Ok,
            ),
            final(self).ctrl() == old(self).ctrl(),
            final(self).accesses() == old(self).accesses(),
            res is Err ==> res->Err_0 == DisplayError::Transport,
    {
        let mask: u8 = match dir {
            Direction::Output => 0x00u8,
            Direction::Input => 0xffu8,
        };
        let ghost t = self.wire();
        let res = self.iface.write_reg(MCP23S17_IODIRA, mask);
        proof {
            lemma_ran_one(t, WireOp::Write(write_frame(MCP23S17_IODIRA, mask)), res is Ok);
            lemma_last_ctrl_push(
                t,
                Step { op: WireOp::Write(write_frame(MCP23S17_IODIRA, mask)), ok: res is Ok },
            );
        }
        res
    }

    /// Gives the slots under `mask` the value `new_bits`. The register is
    /// written only if that changes it, and the cached copy follows only a
    /// write that went through.
    fn update_ctrl_bits(&mut self, mask: u8, new_bits: u8) -> (res: Result<(), DisplayError>)
        requires
            old(self).sound(),
            field_update(mask, new_bits),
        ensures
            final(self).sound(),
            final(self).marks() == old(self).marks(),
            final(self).heard() == old(self).heard(),
            stepped(
                old(self).wire(),
                final(self).wire(),
                ctrl_plan(old(self).ctrl(), mask, new_bits),
                res is Ok,
            ),
            res is Ok ==> final(self).ctrl() == ctrl_next(old(self).ctrl(), mask, new_bits),
            res is Err ==> final(self).ctrl() == old(self).ctrl(),
            mask != BL_MASK ==> final(self).backlight() == old(self).backlight(),
            final(self).accesses() == old(self).accesses(),
            res is Err ==> res->Err_0 == DisplayError::Transport,
    {
        let cur_bits = self.ctrl_bits & mask;
        if new_bits != cur_bits {
            let next: u8 = (self.ctrl_bits & !mask) | new_bits;
            let ghost t = self.wire();
            let res = self.iface.write_reg(MCP23S17_GPIOB, next);
            proof {
                lemma_ran_one(t, WireOp::Write(write_frame(MCP23S17_GPIOB, next)), res is Ok);
                lemma_last_ctrl_push(
                    t,
                    Step { op: WireOp::Write(write_frame(MCP23S17_GPIOB, next)), ok: res is Ok },
                );
                lemma_field_keeps_select(self.ctrl_bits, mask, new_bits);
            }
            if res.is_ok() {
                self.ctrl_bits = next;
            }
            res
        } else {
            proof {
                lemma_ran_nothing(self.wire());
            }
            Ok(())
        }
    }

    fn enable_chip(&mut self, id: ChipId) -> (res: Result<(), DisplayError>)
        requires
            old(self).sound(),
        ensures
            final(self).sound(),
            final(self).marks() == old(self).marks(),
            final(self).heard() == old(self).heard(),
            stepped(
                old(self).wire(),
                final(self).wire(),
                ctrl_plan(old(self).ctrl(), CS_MASK, select_bits(id)),
                res is Ok,
            ),
            res is Ok ==> final(self).ctrl() == ctrl_next(
                old(self).ctrl(),
                CS_MASK,
                select_bits(id),
            ),
            res is Err ==> final(self).ctrl() == old(self).ctrl(),
            final(self).backlight() == old(self).backlight(),
            final(self).accesses() == old(self).accesses(),
            res is Err ==> res->Err_0 == DisplayError::Transport,
    {
        let bits: u8 = match id {
            ChipId::Chip1 => CS1_MASK,
            ChipId::Chip2 => CS2_MASK,
        };
        self.update_ctrl_bits(CS_MASK, bits)
    }

    fn disable_chips(&mut self) -> (res: Result<(), DisplayError>)
        requires
            old(self).sound(),
        ensures
            final(self).sound(),
            final(self).marks() == old(self).marks(),
            final(self).heard() == old(self).heard(),
            stepped(
                old(self).wire(),
                final(self).wire(),
                ctrl_plan(old(self).ctrl(), CS_MASK, 0x00),
                res is Ok,
            ),
            res is Ok ==> final(self).ctrl() == ctrl_next(old(self).ctrl(), CS_MASK, 0x00),
            res is Err ==> final(self).ctrl() == old(self).ctrl(),
            final(self).backlight() == old(self).backlight(),
            final(self).accesses() == old(self).accesses(),
            res is Err ==> res->Err_0 == DisplayError::Transport,
    {
        self.update_ctrl_bits(CS_MASK, 0x00)
    }

    /// The bus cycles of a write, without the entry in the access list.
    fn write_cycle(&mut self, chip: ChipId, is_data: bool, b: u8) -> (res: Result<
        (),
        DisplayError,
    >)
        requires
            old(self).sound(),
        ensures
            final(self).sound(),
            final(self).marks() == old(self).marks(),
            final(self).heard() == old(self).heard(),
            stepped(
                old(self).wire(),
                final(self).wire(),
                write_plan(old(self).ctrl(), chip, is_data, b),
                res is Ok,
            ),
            res is Ok ==> final(self).ctrl() == write_end(old(self).ctrl(), chip, is_data),
            final(self).backlight() == old(self).backlight(),
            final(self).accesses() == old(self).accesses(),
            res is Err ==> res->Err_0 == DisplayError::Transport,
    {
        let ghost t0 = self.wire();
        let ghost parts = write_parts(self.ctrl(), chip, is_data, b);
        let ghost mut t = t0;
        proof {
            lemma_concat_whole(parts);
            lemma_ran_nothing(t0);
        }
        let di: u8 = if is_data {
            DI_MASK
        } else {
            0x00
        };
        let r = self.update_ctrl_bits(0x06, di);
        proof {
            lemma_ran_part(t0, t, self.wire(), parts, 0, r is Ok);
            t = self.wire();
        }
        if r.is_err() {
            return r;
        }
        let r = self.set_busdir(Direction::Output);
        proof {
            lemma_ran_part(t0, t, self.wire(), parts, 1, r is Ok);
            t = self.wire();
        }
        if r.is_err() {
            return r;
        }
        let r = self.write_bus(b);
        proof {
            lemma_ran_part(t0, t, self.wire(), parts, 2, r is Ok);
            t = self.wire();
        }
        if r.is_err() {
            return r;
        }
        let r = self.enable_chip(chip);
        proof {
            lemma_ran_part(t0, t, self.wire(), parts, 3, r is Ok);
            t = self.wire();
        }
        if r.is_err() {
            return r;
        }
        self.settle();
        proof {
            lemma_ran_part(t0, t, self.wire(), parts, 4, true);
            t = self.wire();
        }
        let r = self.update_ctrl_bits(E_MASK, 0x00);
        proof {
            lemma_ran_part(t0, t, self.wire(), parts, 5, r is Ok);
            t = self.wire();
        }
        if r.is_err() {
            return r;
        }
        self.settle();
        proof {
            lemma_ran_part(t0, t, self.wire(), parts, 6, true);
            t = self.wire();
        }
        let r = self.disable_chips();
        proof {
            lemma_ran_part(t0, t, self.wire(), parts, 7, r is Ok);
            t = self.wire();
        }
        if r.is_err() {
            return r;
        }
        let r = self.update_ctrl_bits(E_MASK, E_MASK);
        proof {
            lemma_ran_part(t0, t, self.wire(), parts, 8, r is Ok);
            t = self.wire();
        }
        if r.is_err() {
            return r;
        }
        let r = self.set_busdir(Direction::Input);
        proof {
            lemma_ran_part(t0, t, self.wire(), parts, 9, r is Ok);
            t = self.wire();
        }
        if r.is_err() {
            return r;
        }
        let r = self.update_ctrl_bits(RW_MASK, RW_MASK);
        proof {
            lemma_ran_part(t0, t, self.wire(), parts, 10, r is Ok);
        }
        r
    }

    /// The bus cycles of a read, without the entry in the access list.
    fn read_cycle(&mut self, chip: ChipId, is_data: bool) -> (res: Result<u8, DisplayError>)
        requires
            old(self).sound(),
        ensures
            final(self).sound(),
            final(self).marks() == old(self).marks(),
            read_heard(old(self).heard(), final(self).heard(), res),
            stepped(
                old(self).wire(),
                final(self).wire(),
                read_plan(old(self).ctrl(), chip, is_data),
                res is Ok,
            ),
            res is Ok ==> final(self).ctrl() == read_end(old(self).ctrl(), chip, is_data),
            final(self).backlight() == old(self).backlight(),
            final(self).accesses() == old(self).accesses(),
            res is Err ==> res->Err_0 == DisplayError::Transport,
    {
        let ghost t0 = self.wire();
        let ghost parts = read_parts(self.ctrl(), chip, is_data);
        let ghost mut t = t0;
        proof {
            lemma_concat_whole(parts);
            lemma_ran_nothing(t0);
        }
        let r = self.set_busdir(Direction::Input);
        proof {
            lemma_ran_part(t0, t, self.wire(), parts, 0, r is Ok);
            t = self.wire();
        }
        if r.is_err() {
            return Err(DisplayError::Transport);
        }
        let di_rw: u8 = if is_data {
            0x06
        } else {
            0x04
        };
        assert(0x02u8 | 0x04 == 0x06 && 0x00u8 | 0x04 == 0x04) by (bit_vector);
        let r = self.update_ctrl_bits(0x06, di_rw);
        proof {
            lemma_ran_part(t0, t, self.wire(), parts, 1, r is Ok);
            t = self.wire();
        }
        if r.is_err() {
            return Err(DisplayError::Transport);
        }
        let r = self.enable_chip(chip);
        proof {
            lemma_ran_part(t0, t, self.wire(), parts, 2, r is Ok);
            t = self.wire();
        }
        if r.is_err() {
            return Err(DisplayError::Transport);
        }
        let r = self.update_ctrl_bits(E_MASK, E_MASK);
        proof {
            lemma_ran_part(t0, t, self.wire(), parts, 3, r is Ok);
            t = self.wire();
        }
        if r.is_err() {
            return Err(DisplayError::Transport);
        }
        self.settle();
        proof {
            lemma_ran_part(t0, t, self.wire(), parts, 4, true);
            t = self.wire();
        }
        let data = self.read_bus();
        proof {
            lemma_ran_part(t0, t, self.wire(), parts, 5, data is Ok);
            t = self.wire();
        }
        if data.is_err() {
            return data;
        }
        let r = self.disable_chips();
        proof {
            lemma_ran_part(t0, t, self.wire(), parts, 6, r is Ok);
        }
        if r.is_err() {
            return Err(DisplayError::Transport);
        }
        data
    }

    /// Writes `b` to `chip`, as display data or as an instruction: sets up
    /// the control lines and the data lines, selects the chip, pulses the
    /// strobe low, deselects, and returns the bus to its idle, reading state.
    /// Stops at the first register write that fails.
    fn write(&mut self, chip: ChipId, is_data: bool, b: u8) -> (res: Result<(), DisplayError>)
        requires
            old(self).wf(),
        ensures
            final(self).wrote(*old(self), chip, is_data, b, res is Ok),
            res is Err ==> res->Err_0 == DisplayError::Transport,
    {
        let ghost c0 = self.ctrl();
        let ghost w0 = self.wire();
        let res = self.write_cycle(chip, is_data, b);
        proof {
            lemma_account_push(
                w0,
                self.wire(),
                self.marks@,
                self.log@,
                ChipOp::Write { chip, is_data, byte: b },
                res is Ok,
            );
            self.log@ = self.log@.push(
                Step { op: ChipOp::Write { chip, is_data, byte: b }, ok: res is Ok },
            );
            self.marks@ = self.marks@.push(self.wire().len() as int);
            lemma_write_leaves_bus_idle(c0, chip, is_data);
        }
        res
    }

    /// Reads a byte from `chip`: display data, or the status register.
    /// Stops at the first register access that fails.
    fn read(&mut self, chip: ChipId, is_data: bool) -> (res: Result<u8, DisplayError>)
        requires
            old(self).wf(),
        ensures
            final(self).fetched(*old(self), chip, is_data, res),
            res is Err ==> res->Err_0 == DisplayError::Transport,
    {
        let ghost c0 = self.ctrl();
        let ghost w0 = self.wire();
        let res = self.read_cycle(chip, is_data);
        proof {
            lemma_account_push(
                w0,
                self.wire(),
                self.marks@,
                self.log@,
                ChipOp::Read { chip, is_data },
                res is Ok,
            );
            self.log@ = self.log@.push(Step { op: ChipOp::Read { chip, is_data }, ok: res is Ok });
            self.marks@ = self.marks@.push(self.wire().len() as int);
            lemma_read_leaves_bus_idle(c0, chip, is_data);
        }
        res
    }
    /// Switches the backlight. The control register is written only if the
    /// bit changes.
    pub fn set_backlight(&mut self, on: bool) -> (res: Result<(), DisplayError>)
        requires
            old(self).wf(),
        ensures
            final(self).wf(),
            stepped(
                old(self).wire(),
                final(self).wire(),
                ctrl_plan(old(self).ctrl(), BL_MASK, bl_bits(on)),
                res is Ok,
            ),
            res is Ok ==> final(self).ctrl() == ctrl_next(old(self).ctrl(), BL_MASK, bl_bits(on)),
            res is Ok ==> final(self).backlight() == on,
            res is Err ==> final(self).ctrl() == old(self).ctrl(),
            final(self).accesses() == old(self).accesses().push(
                Step { op: ChipOp::Backlight { on }, ok: res is Ok },
            ),
            final(self).marks() == old(self).marks().push(final(self).wire().len() as int),
            final(self).heard() == old(self).heard(),
            res is Err ==> res->Err_0 == DisplayError::Transport,
    {
        let bits: u8 = if on {
            BL_MASK
        } else {
            0x00
        };
        let ghost c0 = self.ctrl_bits;
        let ghost w0 = self.wire();
        let res = self.update_ctrl_bits(BL_MASK, bits);
        proof {
            lemma_account_push(
                w0,
                self.wire(),
                self.marks@,
                self.log@,
                ChipOp::Backlight { on },
                res is Ok,
            );
            self.log@ = self.log@.push(Step { op: ChipOp::Backlight { on }, ok: res is Ok });
            self.marks@ = self.marks@.push(self.wire().len() as int);
            assert(ctrl_next(c0, 0x80, bits) & 0x80 == bits) by (bit_vector)
                requires
                    bits == 0x00 || bits == 0x80,
            ;
        }
        res
    }

    /// Switches the display of `chip` on or off.
    pub fn set_onoff(&mut self, chip: ChipId, on: bool) -> (res: Result<(), DisplayError>)
        requires
            old(self).wf(),
        ensures
            final(self).wrote(*old(self), chip, false, onoff_cmd(on), res is Ok),
            res is Err ==> res->Err_0 == DisplayError::Transport,
    {
        self.write(
            chip,
            false,
            0x3e | if on {
                0x01u8
            } else {
                0x00u8
            },
        )
    }

    /// Sets the column address of `chip`; only the low six bits of `yaddr`
    /// count.
    pub fn set_addr(&mut self, chip: ChipId, yaddr: u8) -> (res: Result<(), DisplayError>)
        requires
            old(self).wf(),
        ensures
            final(self).wrote(*old(self), chip, false, addr_cmd(yaddr), res is Ok),
            res is Err ==> res->Err_0 == DisplayError::Transport,
    {
        self.write(chip, false, 0x40 | (0x3f & yaddr))
    }

    /// Sets the page of `chip`; only the low three bits of `xaddr` count.
    pub fn set_page(&mut self, chip: ChipId, xaddr: u8) -> (res: Result<(), DisplayError>)
        requires
            old(self).wf(),
        ensures
            final(self).wrote(*old(self), chip, false, page_cmd(xaddr), res is Ok),
            res is Err ==> res->Err_0 == DisplayError::Transport,
    {
        self.write(chip, false, 0xb8 | (0x07 & xaddr))
    }

    /// Sets the display line that `chip` shows at the top; only the low six
    /// bits of `startline` count.
    pub fn set_startline(&mut self, chip: ChipId, startline: u8) -> (res: Result<
        (),
        DisplayError,
    >)
        requires
            old(self).wf(),
        ensures
            final(self).wrote(*old(self), chip, false, startline_cmd(startline), res is Ok),
            res is Err ==> res->Err_0 == DisplayError::Transport,
    {
        self.write(chip, false, 0xc0 | (0x3f & startline))
    }

    /// Writes one byte of display data to `chip` at its current address.
    pub fn write_data(&mut self, chip: ChipId, data: u8) -> (res: Result<(), DisplayError>)
        requires
            old(self).wf(),
        ensures
            final(self).wrote(*old(self), chip, true, data, res is Ok),
            res is Err ==> res->Err_0 == DisplayError::Transport,
    {
        self.write(chip, true, data)
    }

    /// Reads the status register of `chip`.
    pub fn read_status(&mut self, chip: ChipId) -> (res: Result<u8, DisplayError>)
        requires
            old(self).wf(),
        ensures
            final(self).fetched(*old(self), chip, false, res),
            res is Err ==> res->Err_0 == DisplayError::Transport,
    {
        self.read(chip, false)
    }

    /// Reads one byte of display data from `chip` at its current address.
    pub fn read_data(&mut self, chip: ChipId) -> (res: Result<u8, DisplayError>)
        requires
            old(self).wf(),
        ensures
            final(self).fetched(*old(self), chip, true, res),
            res is Err ==> res->Err_0 == DisplayError::Transport,
    {
        self.read(chip, true)
    }
}

} // verus!
