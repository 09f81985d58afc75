use vstd::prelude::*;
use vstd::string::*;
use crate::error::DisplayError;
use crate::link::LinkFault;
use crate::trace::{
    concat_all, lemma_concat_whole, lemma_ran_failed_prefix, lemma_ran_nothing, lemma_ran_one,
    lemma_ran_part, lemma_ran_push, lemma_ran_then, stepped, Step,
};

verus! {

/// Characters in a line of the display.
pub const WIDTH: usize = 16;
pub const LCD_CHR: u8 = 1;
pub const LCD_CMD: u8 = 0;
pub const BL_BIT: u8 = 0x08;
pub const RS_BIT: u8 = 0x01;
pub const EN_BIT: u8 = 0x04;
/// Address of the first line in the display's memory.
pub const LINE_1: u8 = 0x80;
/// Address of the second line in the display's memory.
pub const LINE_2: u8 = 0xc0;
/// How long the enable bit stays set, in nanoseconds.
pub const E_PULSE: u32 = 500_000;
/// The wait before and after the enable pulse, in nanoseconds.
pub const E_DELAY: u32 = 500_000;
pub const CODE_CHAR_AA_U: u8 = 0x00;
pub const CODE_CHAR_AE_U: u8 = 0x01;
pub const CODE_CHAR_OE_U: u8 = 0x02;
pub const CODE_CHAR_AA_L: u8 = 0x03;
pub const CODE_CHAR_AE_L: u8 = 0xe1;
pub const CODE_CHAR_OE_L: u8 = 0xef;
pub const CODE_CHAR_UNKNOWN: u8 = 0xff;

/// The port of the display's I/O expander on the two-wire bus, and a way
/// to wait. Nothing is promised of an implementation.
pub trait I2cPort {
    /// Sends one byte to the expander.
    fn smbus_write_byte(&mut self, value: u8) -> Result<(), LinkFault>;

    /// Blocks for at least `nanos` nanoseconds.
    fn pause_nanos(&mut self, nanos: u32);
}

/// What the driver asks of the port.
pub enum PortOp {
    Write(u8),
    Pause(nat),
}

/// The code of a character in the display's character set: the ASCII
/// characters stand for themselves, the six Swedish letters have codes of
/// their own, and every other character shows as the unknown one.
pub open spec fn decode_char(c: char) -> u8 {
    let code = c as u32;
    if code < 128 {
        code as u8
    } else if code == 0xe5 {
        CODE_CHAR_AA_L
    } else if code == 0xe4 {
        CODE_CHAR_AE_L
    } else if code == 0xf6 {
        CODE_CHAR_OE_L
    } else if code == 0xc5 {
        CODE_CHAR_AA_U
    } else if code == 0xc4 {
        CODE_CHAR_AE_U
    } else if code == 0xd6 {
        CODE_CHAR_OE_U
    } else {
        CODE_CHAR_UNKNOWN
    }
}

/// The codes of the characters of a text.
pub open spec fn decoded(s: Seq<char>) -> Seq<u8> {
    Seq::new(s.len(), |i: int| decode_char(s[i]))
}

/// The codes of the characters of `s` in the display's character set.
pub fn decode(s: &str) -> (codes: Vec<u8>)
    ensures
        codes@ == decoded(s@),
{
    let n = s.unicode_len();
    let mut codes: Vec<u8> = Vec::new();
    let mut i: usize = 0;
    while i < n
        invariant
            i <= n,
            n == s@.len(),
            codes@ == decoded(s@.take(i as int)),
        decreases n - i,
    {
        let code = s.get_char(i) as u32;
        let b: u8 = if code < 128 {
            code as u8
        } else if code == 0xe5 {
            CODE_CHAR_AA_L
        } else if code == 0xe4 {
            CODE_CHAR_AE_L
        } else if code == 0xf6 {
            CODE_CHAR_OE_L
        } else if code == 0xc5 {
            CODE_CHAR_AA_U
        } else if code == 0xc4 {
            CODE_CHAR_AE_U
        } else if code == 0xd6 {
            CODE_CHAR_OE_U
        } else {
            CODE_CHAR_UNKNOWN
        };
        codes.push(b);
        assert(codes@ =~= decoded(s@.take(i + 1)));
        i += 1;
    }
    assert(s@.take(n as int) =~= s@);
    codes
}

/// A line of the display that starts with `bytes` and is filled up with
/// blanks; what does not fit is cut off.
pub open spec fn padded(bytes: Seq<u8>) -> Seq<u8> {
    Seq::new(
        16,
        |i: int|
            if i < bytes.len() {
                bytes[i]
            } else {
                0x20u8
            },
    )
}

/// A line of the display that starts with `vec` and is filled up with
/// blanks; what does not fit is cut off.
pub fn fill_buf(vec: &[u8]) -> (buf: [u8; 16])
    ensures
        buf@ == padded(vec@),
{
    let mut buf: [u8; 16] = [0x20; 16];
    let n = if vec.len() < WIDTH {
        vec.len()
    } else {
        WIDTH
    };
    let mut i: usize = 0;
    while i < n
        invariant
            i <= n <= 16,
            n <= vec@.len(),
            forall|k: int| 0 <= k < i ==> buf@[k] == vec@[k],
            forall|k: int| i <= k < 16 ==> buf@[k] == 0x20u8,
        decreases n - i,
    {
        buf[i] = vec[i];
        i += 1;
    }
    assert(buf@ =~= padded(vec@));
    buf
}

/// The four bits of the backlight in a byte for the expander.
pub open spec fn light_bits(on: bool) -> u8 {
    if on {
        BL_BIT
    } else {
        0x00
    }
}

/// The byte for the expander that carries the upper half of `bits`.
pub open spec fn high_nibble(bits: u8, mode: u8, bl: bool) -> u8 {
    (bits & 0xf0) | (mode & RS_BIT) | light_bits(bl)
}

/// The byte for the expander that carries the lower half of `bits`.
pub open spec fn low_nibble(bits: u8, mode: u8, bl: bool) -> u8 {
    ((bits << 4) & 0xf0) | (mode & RS_BIT) | light_bits(bl)
}

/// Handing one half byte to the display: the byte is written, then once
/// more with the enable bit set, then once more without it, with a wait
/// after each.
pub open spec fn strobe_plan(data: u8) -> Seq<PortOp> {
    seq![
        PortOp::Write(data),
        PortOp::Pause(E_DELAY as nat),
        PortOp::Write(data | EN_BIT),
        PortOp::Pause(E_PULSE as nat),
        PortOp::Write(data),
        PortOp::Pause(E_DELAY as nat),
    ]
}

/// Handing one byte to the display, as a character or as a command: its
/// upper half first.
pub open spec fn byte_plan(bits: u8, mode: u8, bl: bool) -> Seq<PortOp> {
    strobe_plan(high_nibble(bits, mode, bl)) + strobe_plan(low_nibble(bits, mode, bl))
}

/// Handing a row of bytes to the display, each with its mode.
pub open spec fn script_plan(script: Seq<(u8, u8)>, bl: bool) -> Seq<PortOp> {
    concat_all(Seq::new(script.len(), |i: int| byte_plan(script[i].0, script[i].1, bl)))
}

/// The commands that bring the display up: four-bit mode, cursor moving
/// right, display on without cursor, two lines, clear.
pub open spec fn init_head() -> Seq<(u8, u8)> {
    seq![
        (0x33u8, LCD_CMD),
        (0x32u8, LCD_CMD),
        (0x06u8, LCD_CMD),
        (0x0cu8, LCD_CMD),
        (0x28u8, LCD_CMD),
        (0x01u8, LCD_CMD),
    ]
}

/// The bitmaps of the four letters that the display lacks, each after the
/// command that addresses its place.
pub open spec fn init_tail() -> Seq<(u8, u8)> {
    seq![
        (0x40u8, LCD_CMD),
        (0x04u8, LCD_CHR),
        (0x0au8, LCD_CHR),
        (0x04u8, LCD_CHR),
        (0x0au8, LCD_CHR),
        (0x11u8, LCD_CHR),
        (0x1fu8, LCD_CHR),
        (0x11u8, LCD_CHR),
        (0x11u8, LCD_CHR),
        (0x48u8, LCD_CMD),
        (0x0au8, LCD_CHR),
        (0x00u8, LCD_CHR),
        (0x04u8, LCD_CHR),
        (0x0au8, LCD_CHR),
        (0x11u8, LCD_CHR),
        (0x1fu8, LCD_CHR),
        (0x11u8, LCD_CHR),
        (0x11u8, LCD_CHR),
        (0x50u8, LCD_CMD),
        (0x0au8, LCD_CHR),
        (0x00u8, LCD_CHR),
        (0x0eu8, LCD_CHR),
        (0x11u8, LCD_CHR),
        (0x11u8, LCD_CHR),
        (0x11u8, LCD_CHR),
        (0x11u8, LCD_CHR),
        (0x0eu8, LCD_CHR),
        (0x58u8, LCD_CMD),
        (0x04u8, LCD_CHR),
        (0x0au8, LCD_CHR),
        (0x04u8, LCD_CHR),
        (0x0eu8, LCD_CHR),
        (0x01u8, LCD_CHR),
        (0x0fu8, LCD_CHR),
        (0x11u8, LCD_CHR),
        (0x0fu8, LCD_CHR),
    ]
}

/// Everything that bringing the display up asks of the port.
pub open spec fn init_plan(bl: bool) -> Seq<PortOp> {
    script_plan(init_head(), bl) + seq![PortOp::Pause(E_DELAY as nat)] + script_plan(
        init_tail(),
        bl,
    )
}

/// Addressing a line and writing its sixteen characters.
pub open spec fn line_script(buf: Seq<u8>, line: u8) -> Seq<(u8, u8)> {
    seq![(line, LCD_CMD)] + Seq::new(16, |i: int| (buf[i], LCD_CHR))
}

/// Everything that showing `bytes` on a line asks of the port.
pub open spec fn line_plan(bytes: Seq<u8>, line: u8, bl: bool) -> Seq<PortOp> {
    script_plan(line_script(padded(bytes), line), bl)
}

/// Everything that showing two texts on the two lines asks of the port.
pub open spec fn update_plan(line1: Seq<char>, line2: Seq<char>, bl: bool) -> Seq<PortOp> {
    line_plan(decoded(line1), LINE_1, bl) + line_plan(decoded(line2), LINE_2, bl)
}

/// A character display of two lines behind an I/O expander that hands it
/// half a byte at a time. Keeps, for the proofs, the list of everything it
/// has asked of the port.
pub struct LcdDev<P: I2cPort> {
    dev: P,
    backlight: bool,
    log: Ghost<Seq<Step<PortOp>>>,
}

impl<P: I2cPort> LcdDev<P> {
    /// Everything asked of the port so far, oldest first.
    pub closed spec fn trace(&self) -> Seq<Step<PortOp>> {
        self.log@
    }

    /// Whether the backlight bit goes out with every byte.
    pub closed spec fn light(&self) -> bool {
        self.backlight
    }

    /// The display on `port`, with the backlight as given. Nothing is sent.
    pub fn new(port: P, bl: bool) -> (dev: LcdDev<P>)
        ensures
            dev.trace() == Seq::<Step<PortOp>>::empty(),
            dev.light() == bl,
    {
        LcdDev { dev: port, backlight: bl, log: Ghost(Seq::empty()) }
    }

    /// The port that the display hangs on.
    pub closed spec fn port(&self) -> P {
        self.dev
    }

    /// Hands the port back.
    pub fn release(self) -> (port: P)
        ensures
            port == self.port(),
    {
        self.dev
    }

    fn put(&mut self, value: u8) -> (res: Result<(), DisplayError>)
        ensures
            final(self).trace() == old(self).trace().push(
                Step { op: PortOp::Write(value), ok: res is Ok },
            ),
            final(self).light() == old(self).light(),
            res is Err ==> res->Err_0 == DisplayError::Transport,
    {
        let res = match self.dev.smbus_write_byte(value) {
            Ok(()) => Ok(()),
            Err(_) => Err(DisplayError::Transport),
        };
        proof {
            self.log@ = self.log@.push(Step { op: PortOp::Write(value), ok: res is Ok });
        }
        res
    }

    fn pause(&mut self, nanos: u32)
        ensures
            final(self).trace() == old(self).trace().push(
                Step { op: PortOp::Pause(nanos as nat), ok: true },
            ),
            final(self).light() == old(self).light(),
    {
        self.dev.pause_nanos(nanos);
        proof {
            self.log@ = self.log@.push(Step { op: PortOp::Pause(nanos as nat), ok: true });
        }
    }

    fn strobe(&mut self, data: u8) -> (res: Result<(), DisplayError>)
        ensures
            stepped(old(self).trace(), final(self).trace(), strobe_plan(data), res is Ok),
            final(self).light() == old(self).light(),
            res is Err ==> res->Err_0 == DisplayError::Transport,
    {
        let ghost t0 = self.trace();
        let ghost plan = strobe_plan(data);
        proof {
            lemma_ran_nothing(t0);
            assert(plan.take(0) =~= Seq::<PortOp>::empty());
        }
        let r = self.put(data);
        proof {
            lemma_ran_push(t0, t0, plan, 0, r is Ok);
        }
        if r.is_err() {
            return r;
        }
        let ghost t = self.trace();
        self.pause(E_DELAY);
        proof {
            lemma_ran_push(t0, t, plan, 1, true);
        }
        let ghost t = self.trace();
        let r = self.put(data | EN_BIT);
        proof {
            lemma_ran_push(t0, t, plan, 2, r is Ok);
        }
        if r.is_err() {
            return r;
        }
        let ghost t = self.trace();
        self.pause(E_PULSE);
        proof {
            lemma_ran_push(t0, t, plan, 3, true);
        }
        let ghost t = self.trace();
        let r = self.put(data);
        proof {
            lemma_ran_push(t0, t, plan, 4, r is Ok);
        }
        if r.is_err() {
            return r;
        }
        let ghost t = self.trace();
        self.pause(E_DELAY);
        proof {
            lemma_ran_push(t0, t, plan, 5, true);
            assert(plan.take(6) =~= plan);
        }
        Ok(())
    }

    /// Hands `bits` to the display, as a character if `mode` is `LCD_CHR`
    /// and as a command if it is `LCD_CMD`: the upper half first, then the
    /// lower half. Stops at the first write that fails.
    pub fn send_byte(&mut self, bits: u8, mode: u8) -> (res: Result<(), DisplayError>)
        ensures
            stepped(
                old(self).trace(),
                final(self).trace(),
                byte_plan(bits, mode, old(self).light()),
                res is Ok,
            ),
            final(self).light() == old(self).light(),
            res is Err ==> res->Err_0 == DisplayError::Transport,
    {
        let bl: u8 = if self.backlight {
            BL_BIT
        } else {
            0
        };
        let ghost t0 = self.trace();
        let high: u8 = (bits & 0xf0) | (mode & RS_BIT) | bl;
        let r = self.strobe(high);
        if r.is_err() {
            proof {
                lemma_ran_failed_prefix(
                    crate::trace::added(t0, self.trace()),
                    strobe_plan(high),
                    strobe_plan(low_nibble(bits, mode, self.light())),
                );
            }
            return r;
        }
        let ghost t1 = self.trace();
        let low: u8 = ((bits << 4) & 0xf0) | (mode & RS_BIT) | bl;
        let r = self.strobe(low);
        proof {
            lemma_ran_then(t0, t1, self.trace(), strobe_plan(high), strobe_plan(low), r is Ok);
        }
        r
    }

    /// Hands a row of bytes to the display, each with its mode.
    fn run_script(&mut self, script: &Vec<(u8, u8)>) -> (res: Result<(), DisplayError>)
        ensures
            stepped(
                old(self).trace(),
                final(self).trace(),
                script_plan(script@, old(self).light()),
                res is Ok,
            ),
            final(self).light() == old(self).light(),
            res is Err ==> res->Err_0 == DisplayError::Transport,
    {
        let ghost t0 = self.trace();
        let ghost bl = self.light();
        let ghost parts = Seq::new(
            script@.len(),
            |i: int| byte_plan(script@[i].0, script@[i].1, bl),
        );
        proof {
            lemma_ran_nothing(t0);
            lemma_concat_whole(parts);
        }
        let mut i: usize = 0;
        while i < script.len()
            invariant
                i <= script@.len(),
                t0 == old(self).trace(),
                bl == old(self).light(),
                self.light() == bl,
                parts == Seq::new(script@.len(), |i: int| byte_plan(script@[i].0, script@[i].1, bl)),
                stepped(t0, self.trace(), concat_all(parts.take(i as int)), true),
            decreases script@.len() - i,
        {
            let ghost t = self.trace();
            let item = script[i];
            let r = self.send_byte(item.0, item.1);
            proof {
                lemma_ran_part(t0, t, self.trace(), parts, i as int, r is Ok);
            }
            if r.is_err() {
                return r;
            }
            i += 1;
        }
        proof {
            assert(parts.take(script@.len() as int) =~= parts);
        }
        Ok(())
    }

    /// Brings the display up and loads the bitmaps of the four letters
    /// that it lacks.
    pub fn init(&mut self) -> (res: Result<(), DisplayError>)
        ensures
            stepped(old(self).trace(), final(self).trace(), init_plan(old(self).light()), res is Ok),
            final(self).light() == old(self).light(),
            res is Err ==> res->Err_0 == DisplayError::Transport,
    {
        let ghost t0 = self.trace();
        let ghost bl = self.light();
        let head: Vec<(u8, u8)> = vec![
            (0x33u8, LCD_CMD),
            (0x32u8, LCD_CMD),
            (0x06u8, LCD_CMD),
            (0x0cu8, LCD_CMD),
            (0x28u8, LCD_CMD),
            (0x01u8, LCD_CMD),
        ];
        assert(head@ =~= init_head());
        let tail: Vec<(u8, u8)> = vec![
            (0x40u8, LCD_CMD),
            (0x04u8, LCD_CHR),
            (0x0au8, LCD_CHR),
            (0x04u8, LCD_CHR),
            (0x0au8, LCD_CHR),
            (0x11u8, LCD_CHR),
            (0x1fu8, LCD_CHR),
            (0x11u8, LCD_CHR),
            (0x11u8, LCD_CHR),
            (0x48u8, LCD_CMD),
            (0x0au8, LCD_CHR),
            (0x00u8, LCD_CHR),
            (0x04u8, LCD_CHR),
            (0x0au8, LCD_CHR),
            (0x11u8, LCD_CHR),
            (0x1fu8, LCD_CHR),
            (0x11u8, LCD_CHR),
            (0x11u8, LCD_CHR),
            (0x50u8, LCD_CMD),
            (0x0au8, LCD_CHR),
            (0x00u8, LCD_CHR),
            (0x0eu8, LCD_CHR),
            (0x11u8, LCD_CHR),
            (0x11u8, LCD_CHR),
            (0x11u8, LCD_CHR),
            (0x11u8, LCD_CHR),
            (0x0eu8, LCD_CHR),
            (0x58u8, LCD_CMD),
            (0x04u8, LCD_CHR),
            (0x0au8, LCD_CHR),
            (0x04u8, LCD_CHR),
            (0x0eu8, LCD_CHR),
            (0x01u8, LCD_CHR),
            (0x0fu8, LCD_CHR),
            (0x11u8, LCD_CHR),
            (0x0fu8, LCD_CHR),
        ];
        assert(tail@ =~= init_tail());
        let ghost plan_a = script_plan(init_head(), bl);
        let ghost plan_b = seq![PortOp::Pause(E_DELAY as nat)];
        let ghost plan_c = script_plan(init_tail(), bl);
        let r = self.run_script(&head);
        if r.is_err() {
            proof {
                lemma_ran_failed_prefix(crate::trace::added(t0, self.trace()), plan_a, plan_b + plan_c);
                assert(plan_a + (plan_b + plan_c) =~= plan_a + plan_b + plan_c);
            }
            return r;
        }
        let ghost t1 = self.trace();
        self.pause(E_DELAY);
        let ghost t2 = self.trace();
        proof {
            lemma_ran_one(t1, PortOp::Pause(E_DELAY as nat), true);
            lemma_ran_then(t0, t1, t2, plan_a, plan_b, true);
        }
        let r = self.run_script(&tail);
        proof {
            lemma_ran_then(t0, t2, self.trace(), plan_a + plan_b, plan_c, r is Ok);
        }
        r
    }

    /// Whether the backlight bit goes out with every byte.
    pub fn get_backlight(&self) -> (bl: bool)
        ensures
            bl == self.light(),
    {
        self.backlight
    }

    /// Sets whether the backlight bit goes out with every byte from now
    /// on. Nothing is sent.
    pub fn set_backlight(&mut self, bl: bool)
        ensures
            final(self).light() == bl,
            final(self).trace() == old(self).trace(),
    {
        self.backlight = bl
    }

    /// Addresses `line` and writes the sixteen characters of `buf` there.
    pub fn print_buf(&mut self, buf: [u8; 16], line: u8) -> (res: Result<(), DisplayError>)
        ensures
            stepped(
                old(self).trace(),
                final(self).trace(),
                script_plan(line_script(buf@, line), old(self).light()),
                res is Ok,
            ),
            final(self).light() == old(self).light(),
            res is Err ==> res->Err_0 == DisplayError::Transport,
    {
        let mut script: Vec<(u8, u8)> = Vec::new();
        script.push((line, LCD_CMD));
        let mut i: usize = 0;
        while i < WIDTH
            invariant
                i <= 16,
                script@.len() == 1 + i,
                script@[0] == (line, LCD_CMD),
                forall|k: int| 0 <= k < i ==> script@[1 + k] == (buf@[k], LCD_CHR),
            decreases 16 - i,
        {
            script.push((buf[i], LCD_CHR));
            i += 1;
        }
        assert(script@ =~= line_script(buf@, line));
        self.run_script(&script)
    }

    /// Shows `bytes` on `line`, filled up with blanks or cut off at
    /// sixteen characters.
    pub fn print_bytestr(&mut self, bytes: &[u8], line: u8) -> (res: Result<(), DisplayError>)
        ensures
            stepped(
                old(self).trace(),
                final(self).trace(),
                line_plan(bytes@, line, old(self).light()),
                res is Ok,
            ),
            final(self).light() == old(self).light(),
            res is Err ==> res->Err_0 == DisplayError::Transport,
    {
        let buf = fill_buf(bytes);
        self.print_buf(buf, line)
    }

    /// Shows `message` on `line`.
    pub fn print_string(&mut self, message: &str, line: u8) -> (res: Result<(), DisplayError>)
        ensures
            stepped(
                old(self).trace(),
                final(self).trace(),
                line_plan(decoded(message@), line, old(self).light()),
                res is Ok,
            ),
            final(self).light() == old(self).light(),
            res is Err ==> res->Err_0 == DisplayError::Transport,
    {
        let codes = decode(message);
        self.print_bytestr(codes.as_slice(), line)
    }
}

/// The character display with the two texts that it shows.
pub struct Lcd<P: I2cPort> {
    dev: LcdDev<P>,
    line1: String,
    line2: String,
}

impl<P: I2cPort> Lcd<P> {
    /// The display behind the texts.
    pub closed spec fn device(&self) -> LcdDev<P> {
        self.dev
    }

    /// The text of the first line.
    pub closed spec fn first(&self) -> Seq<char> {
        self.line1@
    }

    /// The text of the second line.
    pub closed spec fn second(&self) -> Seq<char> {
        self.line2@
    }

    /// This display is `before` after both lines were sent once more, as
    /// far as the port let them.
    pub open spec fn updated(&self, before: Self, done: bool) -> bool {
        &&& stepped(
            before.device().trace(),
            self.device().trace(),
            update_plan(self.first(), self.second(), self.device().light()),
            done,
        )
    }

    /// The display on `port`, with two empty lines and the backlight on.
    /// Nothing is sent.
    pub fn new(port: P) -> (lcd: Lcd<P>)
        ensures
            lcd.device().trace() == Seq::<Step<PortOp>>::empty(),
            lcd.device().light(),
            lcd.first() == Seq::<char>::empty(),
            lcd.second() == Seq::<char>::empty(),
    {
        Lcd { dev: LcdDev::new(port, true), line1: String::new(), line2: String::new() }
    }

    /// Hands the port back.
    pub fn release(self) -> (port: P)
        ensures
            port == self.device().port(),
    {
        self.dev.release()
    }

    /// Brings the display up.
    pub fn init(&mut self) -> (res: Result<(), DisplayError>)
        ensures
            stepped(
                old(self).device().trace(),
                final(self).device().trace(),
                init_plan(old(self).device().light()),
                res is Ok,
            ),
            final(self).device().light() == old(self).device().light(),
            final(self).first() == old(self).first(),
            final(self).second() == old(self).second(),
            res is Err ==> res->Err_0 == DisplayError::Transport,
    {
        self.dev.init()
    }

    /// Sends both lines once more.
    fn update(&mut self) -> (res: Result<(), DisplayError>)
        ensures
            final(self).updated(*old(self), res is Ok),
            final(self).device().light() == old(self).device().light(),
            final(self).first() == old(self).first(),
            final(self).second() == old(self).second(),
            res is Err ==> res->Err_0 == DisplayError::Transport,
    {
        let ghost t0 = self.dev.trace();
        let ghost bl = self.dev.light();
        let ghost plan_a = line_plan(decoded(self.line1@), LINE_1, bl);
        let ghost plan_b = line_plan(decoded(self.line2@), LINE_2, bl);
        let r = self.dev.print_string(self.line1.as_str(), LINE_1);
        if r.is_err() {
            proof {
                lemma_ran_failed_prefix(crate::trace::added(t0, self.dev.trace()), plan_a, plan_b);
            }
            return r;
        }
        let ghost t1 = self.dev.trace();
        let r = self.dev.print_string(self.line2.as_str(), LINE_2);
        proof {
            lemma_ran_then(t0, t1, self.dev.trace(), plan_a, plan_b, r is Ok);
        }
        r
    }

    /// Shows two texts. Nothing is sent if the display shows them already.
    pub fn set_lines(&mut self, line1: &str, line2: &str) -> (res: Result<(), DisplayError>)
        ensures
            final(self).first() == line1@,
            final(self).second() == line2@,
            final(self).device().light() == old(self).device().light(),
            if old(self).first() == line1@ && old(self).second() == line2@ {
                res is Ok && final(self).device() == old(self).device()
            } else {
                final(self).updated(*old(self), res is Ok)
            },
            res is Err ==> res->Err_0 == DisplayError::Transport,
    {
        let new1 = String::from_str(line1);
        let new2 = String::from_str(line2);
        if self.line1 != new1 || self.line2 != new2 {
            self.line1 = new1;
            self.line2 = new2;
            self.update()
        } else {
            Ok(())
        }
    }

    /// Switches the backlight. If that changes it, both lines are sent
    /// once more, which carries the new state to the display.
    pub fn set_backlight(&mut self, newbl: bool) -> (res: Result<(), DisplayError>)
        ensures
            final(self).device().light() == newbl,
            final(self).first() == old(self).first(),
            final(self).second() == old(self).second(),
            if old(self).device().light() == newbl {
                res is Ok && final(self).device() == old(self).device()
            } else {
                final(self).updated(*old(self), res is Ok)
            },
            res is Err ==> res->Err_0 == DisplayError::Transport,
    {
        let bl = self.dev.get_backlight();
        if bl != newbl {
            self.dev.set_backlight(newbl);
            self.update()
        } else {
            Ok(())
        }
    }

    /// Switches the backlight to what it is not, and sends both lines once
    /// more.
    pub fn toggle_backlight(&mut self) -> (res: Result<(), DisplayError>)
        ensures
            final(self).device().light() == !old(self).device().light(),
            final(self).first() == old(self).first(),
            final(self).second() == old(self).second(),
            final(self).updated(*old(self), res is Ok),
            res is Err ==> res->Err_0 == DisplayError::Transport,
    {
        let bl = self.dev.get_backlight();
        self.dev.set_backlight(!bl);
        self.update()
    }
}

} // verus!
