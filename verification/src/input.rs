use vstd::prelude::*;

verus! {

/// What the front panel reports.
#[derive(Debug, Clone, Copy, PartialEq, Eq, Structural)]
pub enum InputEvent {
    /// The button on the given pin was pressed.
    Button(u8),
    /// The rotary encoder was turned by so many steps, clockwise if positive.
    RotaryEncoder(i8),
}

/// Follows the clock line of a rotary encoder from sample to sample.
#[derive(Debug, Clone, Copy, PartialEq, Eq, Structural)]
pub struct RotaryDecoder {
    pub last_clk_high: bool,
}

impl RotaryDecoder {
    /// A decoder that has seen the clock line high.
    pub fn new() -> (decoder: RotaryDecoder)
        ensures
            decoder.last_clk_high,
    {
        RotaryDecoder { last_clk_high: true }
    }

    /// Takes a sample of the clock line. The encoder has moved one step,
    /// and the direction line is to be read, exactly when the clock line is
    /// high after it was low.
    pub fn clock(&mut self, clk_high: bool) -> (stepped: bool)
        ensures
            stepped == (clk_high && !old(self).last_clk_high),
            final(self).last_clk_high == clk_high,
    {
        let stepped = clk_high && !self.last_clk_high;
        self.last_clk_high = clk_high;
        stepped
    }

    /// The event of one step: clockwise if the direction line is low at the
    /// rising clock, counter-clockwise if it is high.
    pub fn turn(direction_high: bool) -> (event: InputEvent)
        ensures
            event == InputEvent::RotaryEncoder(
                if direction_high {
                    -1i8
                } else {
                    1i8
                },
            ),
    {
        if direction_high {
            InputEvent::RotaryEncoder(-1)
        } else {
            InputEvent::RotaryEncoder(1)
        }
    }
}

} // verus!
