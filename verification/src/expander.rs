use vstd::prelude::*;
use crate::error::DisplayError;
use crate::link::{
    check_received, check_written, written_in_full, ExpanderLink, LinkFault, WireOp,
};
use crate::trace::{added, extends, lemma_ran_one, lemma_ran_then, ran, Step};

verus! {

pub const MCP23S17_READCMD: u8 = 0x41;
pub const MCP23S17_WRITECMD: u8 = 0x40;
pub const MCP23S17_IODIRA: u8 = 0x00;
pub const MCP23S17_IODIRB: u8 = 0x01;
pub const MCP23S17_IOCON: u8 = 0x05;
pub const MCP23S17_GPIOA: u8 = 0x12;
pub const MCP23S17_GPIOB: u8 = 0x13;
pub const MCP23S17_OLATA: u8 = 0x14;
pub const MCP23S17_OLATB: u8 = 0x15;

/// The frame that writes `val` to register `addr`.
pub open spec fn write_frame(addr: u8, val: u8) -> Seq<u8> {
    seq![MCP23S17_WRITECMD, addr, val]
}

/// The frame that writes `vals` to register `addr` in one transaction.
pub open spec fn burst_frame(addr: u8, vals: Seq<u8>) -> Seq<u8> {
    seq![MCP23S17_WRITECMD, addr] + vals
}

/// The frame that reads register `addr`: the value comes in during the
/// third, dummy byte.
pub open spec fn read_frame(addr: u8) -> Seq<u8> {
    seq![MCP23S17_READCMD, addr, 0u8]
}

/// What a hardware reset of the expander asks of the link.
pub open spec fn reset_plan() -> Seq<WireOp> {
    seq![WireOp::ResetLine(false), WireOp::Pause(1), WireOp::ResetLine(true)]
}

/// What taking over the link asks of it: both discrete lines are parked high.
pub open spec fn attach_plan() -> Seq<WireOp> {
    seq![WireOp::SelectLine(true), WireOp::ResetLine(true)]
}

/// What a write of `requested` bytes makes of the reports of the link: there
/// is one more, and the write went through exactly if it is the requested
/// count.
pub open spec fn reported(
    before: Seq<Result<usize, LinkFault>>,
    now: Seq<Result<usize, LinkFault>>,
    requested: nat,
    res: Result<(), DisplayError>,
) -> bool {
    &&& now.len() == before.len() + 1
    &&& now == before.push(now.last())
    &&& res is Ok <==> written_in_full(requested, now.last())
}

/// What a register read makes of the answers of the link: there is one
/// more, nothing if the link failed; the read went through exactly if the
/// answer has three bytes, and returns the last of them.
pub open spec fn heard_byte(
    before: Seq<Option<Seq<u8>>>,
    now: Seq<Option<Seq<u8>>>,
    res: Result<u8, DisplayError>,
) -> bool {
    &&& now.len() == before.len() + 1
    &&& now == before.push(now.last())
    &&& res is Ok <==> (now.last() matches Some(rx) && rx.len() == 3)
    &&& res matches Ok(v) ==> v == now.last()->Some_0[2]
}

/// Register access to a 16-bit I/O expander over a serial link. Keeps, for
/// the proofs, the list of everything it has asked of the link.
pub struct MCP23S17<L: ExpanderLink> {
    link: L,
    log: Ghost<Seq<Step<WireOp>>>,
    replies: Ghost<Seq<Option<Seq<u8>>>>,
    counts: Ghost<Seq<Result<usize, LinkFault>>>,
}

impl<L: ExpanderLink> MCP23S17<L> {
    /// Everything asked of the link so far, oldest first.
    pub closed spec fn trace(&self) -> Seq<Step<WireOp>> {
        self.log@
    }

    /// What came in during every transfer, oldest first; nothing where the
    /// link failed.
    pub closed spec fn heard(&self) -> Seq<Option<Seq<u8>>> {
        self.replies@
    }

    /// What the link reported of every write, oldest first.
    pub closed spec fn reports(&self) -> Seq<Result<usize, LinkFault>> {
        self.counts@
    }

    /// Takes over `link` and parks the chip-select and reset lines high.
    pub fn new(link: L) -> (dev: MCP23S17<L>)
        ensures
            ran(dev.trace(), attach_plan(), true),
            dev.heard() == Seq::<Option<Seq<u8>>>::empty(),
    {
        let mut dev = MCP23S17 {
            link,
            log: Ghost(Seq::empty()),
            replies: Ghost(Seq::empty()),
            counts: Ghost(Seq::empty()),
        };
        dev.drive_select(true);
        dev.drive_reset(true);
        proof {
            let t0 = Seq::<Step<WireOp>>::empty();
            let t1 = t0.push(Step { op: WireOp::SelectLine(true), ok: true });
            lemma_ran_one(t0, WireOp::SelectLine(true), true);
            lemma_ran_one(t1, WireOp::ResetLine(true), true);
            lemma_ran_then(
                t0,
                t1,
                dev.trace(),
                seq![WireOp::SelectLine(true)],
                seq![WireOp::ResetLine(true)],
                true,
            );
            assert(seq![WireOp::SelectLine(true)] + seq![WireOp::ResetLine(true)]
                =~= attach_plan());
            assert(added(t0, dev.trace()) == dev.trace());
        }
        dev
    }

    /// The link that the expander hangs on.
    pub closed spec fn link(&self) -> L {
        self.link
    }

    /// Hands the link back.
    pub fn release(self) -> (link: L)
        ensures
            link == self.link(),
    {
        self.link
    }

    fn drive_select(&mut self, high: bool)
        ensures
            final(self).trace() == old(self).trace().push(
                Step { op: WireOp::SelectLine(high), ok: true },
            ),
            final(self).heard() == old(self).heard(),
    {
        self.link.set_select_line(high);
        proof {
            self.log@ = self.log@.push(Step { op: WireOp::SelectLine(high), ok: true });
        }
    }

    fn drive_reset(&mut self, high: bool)
        ensures
            final(self).trace() == old(self).trace().push(
                Step { op: WireOp::ResetLine(high), ok: true },
            ),
            final(self).heard() == old(self).heard(),
    {
        self.link.set_reset_line(high);
        proof {
            self.log@ = self.log@.push(Step { op: WireOp::ResetLine(high), ok: true });
        }
    }

    /// Blocks for `micros` microseconds.
    pub fn pause(&mut self, micros: u32)
        ensures
            final(self).trace() == old(self).trace().push(
                Step { op: WireOp::Pause(micros as nat), ok: true },
            ),
            final(self).heard() == old(self).heard(),
    {
        self.link.pause_micros(micros);
        proof {
            self.log@ = self.log@.push(Step { op: WireOp::Pause(micros as nat), ok: true });
        }
    }

    fn send(&mut self, tx: &[u8]) -> (res: Result<(), DisplayError>)
        ensures
            final(self).trace() == old(self).trace().push(
                Step { op: WireOp::Write(tx@), ok: res is Ok },
            ),
            final(self).heard() == old(self).heard(),
            reported(old(self).reports(), final(self).reports(), tx@.len(), res),
            res is Err ==> res == Err::<(), DisplayError>(DisplayError::Transport),
    {
        let outcome = self.link.write(tx);
        let res = check_written(tx.len(), outcome);
        proof {
            self.log@ = self.log@.push(Step { op: WireOp::Write(tx@), ok: res is Ok });
            self.counts@ = self.counts@.push(outcome);
        }
        res
    }

    fn exchange(&mut self, tx: &[u8]) -> (res: Result<u8, DisplayError>)
        ensures
            final(self).trace() == old(self).trace().push(
                Step { op: WireOp::Transfer(tx@), ok: res is Ok },
            ),
            heard_byte(old(self).heard(), final(self).heard(), res),
            res is Err ==> res == Err::<u8, DisplayError>(DisplayError::Transport),
    {
        let outcome = self.link.transfer(tx);
        let ghost answer = if outcome is Ok {
            Some(outcome->Ok_0@)
        } else {
            None
        };
        let res = check_received(outcome);
        proof {
            self.log@ = self.log@.push(Step { op: WireOp::Transfer(tx@), ok: res is Ok });
            self.replies@ = self.replies@.push(answer);
        }
        res
    }

    /// Pulses the expander's hardware reset line low for a microsecond.
    pub fn reset(&mut self)
        ensures
            extends(old(self).trace(), final(self).trace()),
            ran(added(old(self).trace(), final(self).trace()), reset_plan(), true),
            final(self).heard() == old(self).heard(),
    {
        let ghost t0 = self.trace();
        self.drive_reset(false);
        let ghost t1 = self.trace();
        self.pause(1);
        let ghost t2 = self.trace();
        self.drive_reset(true);
        proof {
            lemma_ran_one(t0, WireOp::ResetLine(false), true);
            lemma_ran_one(t1, WireOp::Pause(1), true);
            lemma_ran_one(t2, WireOp::ResetLine(true), true);
            lemma_ran_then(
                t0,
                t1,
                t2,
                seq![WireOp::ResetLine(false)],
                seq![WireOp::Pause(1)],
                true,
            );
            lemma_ran_then(
                t0,
                t2,
                self.trace(),
                seq![WireOp::ResetLine(false)] + seq![WireOp::Pause(1)],
                seq![WireOp::ResetLine(true)],
                true,
            );
            assert(seq![WireOp::ResetLine(false)] + seq![WireOp::Pause(1)] + seq![
                WireOp::ResetLine(true),
            ] =~= reset_plan());
        }
    }

    /// Writes `val` to register `addr`. Fails with `Transport` exactly when
    /// the link does not report three bytes written.
    pub fn write_reg(&mut self, addr: u8, val: u8) -> (res: Result<(), DisplayError>)
        ensures
            final(self).trace() == old(self).trace().push(
                Step { op: WireOp::Write(write_frame(addr, val)), ok: res is Ok },
            ),
            final(self).heard() == old(self).heard(),
            reported(old(self).reports(), final(self).reports(), 3, res),
            res is Err ==> res == Err::<(), DisplayError>(DisplayError::Transport),
    {
        let tx: [u8; 3] = [MCP23S17_WRITECMD, addr, val];
        assert(tx@ =~= write_frame(addr, val));
        self.send(tx.as_slice())
    }

    /// Writes `val` to register `addr` in one transaction. Fails with
    /// `Transport` exactly when the link does not report the whole frame
    /// written.
    pub fn write_reg_rep(&mut self, addr: u8, val: &[u8]) -> (res: Result<(), DisplayError>)
        ensures
            final(self).trace() == old(self).trace().push(
                Step { op: WireOp::Write(burst_frame(addr, val@)), ok: res is Ok },
            ),
            final(self).heard() == old(self).heard(),
            reported(old(self).reports(), final(self).reports(), val@.len() + 2, res),
            res is Err ==> res == Err::<(), DisplayError>(DisplayError::Transport),
    {
        let mut tx: Vec<u8> = Vec::new();
        tx.push(MCP23S17_WRITECMD);
        tx.push(addr);
        let mut i: usize = 0;
        while i < val.len()
            invariant
                i <= val@.len(),
                tx@ == burst_frame(addr, val@.take(i as int)),
            decreases val@.len() - i,
        {
            tx.push(val[i]);
            assert(val@.take(i as int).push(val@[i as int]) =~= val@.take(i + 1));
            assert(burst_frame(addr, val@.take(i as int)).push(val@[i as int]) =~= burst_frame(
                addr,
                val@.take(i + 1),
            ));
            i += 1;
        }
        assert(val@.take(i as int) =~= val@);
        self.send(tx.as_slice())
    }

    /// Reads register `addr`. Fails with `Transport` exactly when the link
    /// does not return three bytes; the value is the third.
    pub fn read_reg(&mut self, addr: u8) -> (res: Result<u8, DisplayError>)
        ensures
            final(self).trace() == old(self).trace().push(
                Step { op: WireOp::Transfer(read_frame(addr)), ok: res is Ok },
            ),
            heard_byte(old(self).heard(), final(self).heard(), res),
            res is Err ==> res == Err::<u8, DisplayError>(DisplayError::Transport),
    {
        let tx: [u8; 3] = [MCP23S17_READCMD, addr, 0x00];
        assert(tx@ =~= read_frame(addr));
        self.exchange(tx.as_slice())
    }
}

} // verus!
