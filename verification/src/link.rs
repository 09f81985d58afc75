use vstd::prelude::*;
use crate::error::DisplayError;

verus! {

/// The serial link refused or aborted a transaction.
#[derive(Clone, Copy, Debug, PartialEq, Eq, Structural)]
pub struct LinkFault;

/// The wiring between the driver and the expander chip: a synchronous serial
/// port, the two discrete lines that are driven at start-up, and a way to
/// wait. Nothing is promised of an implementation, so whatever the driver
/// guarantees holds of every one.
pub trait ExpanderLink {
    /// Clocks `bytes` out and reports how many of them went.
    fn write(&mut self, bytes: &[u8]) -> Result<usize, LinkFault>;

    /// Clocks `tx` out and returns what came in meanwhile.
    fn transfer(&mut self, tx: &[u8]) -> Result<Vec<u8>, LinkFault>;

    /// Drives the expander's hardware reset line.
    fn set_reset_line(&mut self, high: bool);

    /// Drives the expander's chip-select line.
    fn set_select_line(&mut self, high: bool);

    /// Blocks for at least `micros` microseconds.
    fn pause_micros(&mut self, micros: u32);
}

/// What the driver asks of the link.
pub enum WireOp {
    /// A frame clocked out.
    Write(Seq<u8>),
    /// A frame clocked out while as many bytes are clocked in.
    Transfer(Seq<u8>),
    /// The reset line driven high or low.
    ResetLine(bool),
    /// The chip-select line driven high or low.
    SelectLine(bool),
    /// A blocking wait of so many microseconds.
    Pause(nat),
}

/// A write went through when the link reports exactly the requested count.
pub open spec fn written_in_full(requested: nat, outcome: Result<usize, LinkFault>) -> bool {
    outcome matches Ok(n) && n == requested
}

/// Judges what the link reported of a write of `requested` bytes.
pub fn check_written(requested: usize, outcome: Result<usize, LinkFault>) -> (res: Result<
    (),
    DisplayError,
>)
    ensures
        res is Ok <==> written_in_full(requested as nat, outcome),
        res is Err ==> res == Err::<(), DisplayError>(DisplayError::Transport),
{
    match outcome {
        Ok(n) => {
            if n == requested {
                Ok(())
            } else {
                Err(DisplayError::Transport)
            }
        },
        Err(_) => Err(DisplayError::Transport),
    }
}

/// A transfer went through when as many bytes came in as went out.
pub open spec fn received_in_full(requested: nat, outcome: Result<Vec<u8>, LinkFault>) -> bool {
    outcome matches Ok(rx) && rx@.len() == requested
}

/// Judges what the link returned of a three-byte register read, and picks the
/// register's value, which is the last byte.
pub fn check_received(outcome: Result<Vec<u8>, LinkFault>) -> (res: Result<u8, DisplayError>)
    ensures
        res is Ok <==> received_in_full(3, outcome),
        res matches Ok(v) ==> v == outcome->Ok_0@[2],
        res is Err ==> res == Err::<u8, DisplayError>(DisplayError::Transport),
{
    match outcome {
        Ok(rx) => {
            if rx.len() == 3 {
                Ok(rx[2])
            } else {
                Err(DisplayError::Transport)
            }
        },
        Err(_) => Err(DisplayError::Transport),
    }
}

} // verus!
