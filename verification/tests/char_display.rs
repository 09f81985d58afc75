use std::cell::RefCell;
use std::rc::Rc;

use wump::error::DisplayError;
use wump::lcd::{decode, fill_buf, I2cPort, Lcd, LcdDev, LCD_CHR, LCD_CMD, LINE_1, LINE_2, WIDTH};
use wump::link::LinkFault;

#[derive(Clone, Debug, PartialEq)]
enum Asked {
    Write(u8),
    Pause(u32),
}

#[derive(Clone)]
struct MockPort {
    log: Rc<RefCell<Vec<Asked>>>,
    writes_left: Rc<RefCell<Option<usize>>>,
}

impl MockPort {
    fn new() -> MockPort {
        MockPort { log: Rc::new(RefCell::new(Vec::new())), writes_left: Rc::new(RefCell::new(None)) }
    }

    fn forget(&self) {
        self.log.borrow_mut().clear();
    }

    fn asked(&self) -> Vec<Asked> {
        self.log.borrow().clone()
    }
}

impl I2cPort for MockPort {
    fn smbus_write_byte(&mut self, value: u8) -> Result<(), LinkFault> {
        self.log.borrow_mut().push(Asked::Write(value));
        let mut left = self.writes_left.borrow_mut();
        match *left {
            Some(0) => Err(LinkFault),
            Some(n) => {
                *left = Some(n - 1);
                Ok(())
            }
            None => Ok(()),
        }
    }

    fn pause_nanos(&mut self, nanos: u32) {
        self.log.borrow_mut().push(Asked::Pause(nanos));
    }
}

/// The bytes that the display took, with the register select bit and the
/// backlight bit of each: it takes half a byte when the enable bit falls.
fn taken(asked: &[Asked]) -> Vec<(u8, u8, bool)> {
    let mut halves: Vec<u8> = Vec::new();
    let mut last = 0u8;
    for a in asked {
        if let Asked::Write(v) = a {
            if last & 0x04 != 0 && v & 0x04 == 0 {
                assert_eq!(last & !0x04, *v);
                halves.push(*v);
            }
            last = *v;
        }
    }
    assert_eq!(halves.len() % 2, 0);
    halves
        .chunks(2)
        .map(|h| {
            assert_eq!(h[0] & 0x0f, h[1] & 0x0f);
            ((h[0] & 0xf0) | (h[1] >> 4), h[0] & 0x01, h[0] & 0x08 != 0)
        })
        .collect()
}

#[test]
fn text_is_decoded_to_display_codes() {
    assert_eq!(decode("Hej!"), vec![b'H', b'e', b'j', b'!']);
    assert_eq!(decode("åäöÅÄÖ"), vec![0x03, 0xe1, 0xef, 0x00, 0x01, 0x02]);
    assert_eq!(decode("é€\u{7f}"), vec![0xff, 0xff, 0x7f]);
    assert_eq!(decode(""), Vec::<u8>::new());
}

#[test]
fn line_is_padded_or_cut() {
    assert_eq!(WIDTH, 16);
    assert_eq!(fill_buf(b"abc"), *b"abc             ");
    assert_eq!(fill_buf(b""), [b' '; 16]);
    assert_eq!(fill_buf(b"0123456789abcdef"), *b"0123456789abcdef");
    assert_eq!(fill_buf(b"0123456789abcdefXYZ"), *b"0123456789abcdef");
}

#[test]
fn byte_goes_out_in_two_strobed_halves() {
    let port = MockPort::new();
    let mut dev = LcdDev::new(port.clone(), true);
    assert!(dev.get_backlight());
    dev.send_byte(0xa5, LCD_CHR).unwrap();
    assert_eq!(
        port.asked(),
        vec![
            Asked::Write(0xa9),
            Asked::Pause(500_000),
            Asked::Write(0xad),
            Asked::Pause(500_000),
            Asked::Write(0xa9),
            Asked::Pause(500_000),
            Asked::Write(0x59),
            Asked::Pause(500_000),
            Asked::Write(0x5d),
            Asked::Pause(500_000),
            Asked::Write(0x59),
            Asked::Pause(500_000),
        ]
    );
    port.forget();
    dev.set_backlight(false);
    dev.send_byte(0x3c, LCD_CMD).unwrap();
    assert_eq!(taken(&port.asked()), vec![(0x3c, 0, false)]);
    assert_eq!(port.asked()[0], Asked::Write(0x30));
    assert_eq!(port.asked()[6], Asked::Write(0xc0));
}

#[test]
fn start_up_loads_the_four_letters() {
    let port = MockPort::new();
    let mut lcd = Lcd::new(port.clone());
    assert_eq!(port.asked(), vec![]);
    lcd.init().unwrap();
    let seen = taken(&port.asked());
    assert_eq!(seen.len(), 6 + 4 * 9);
    let head: Vec<u8> = seen[..6].iter().map(|s| s.0).collect();
    assert_eq!(head, vec![0x33, 0x32, 0x06, 0x0c, 0x28, 0x01]);
    assert!(seen[..6].iter().all(|s| s.1 == 0 && s.2));
    let pauses = port.asked().iter().filter(|a| matches!(a, Asked::Pause(_))).count();
    assert_eq!(pauses, 42 * 6 + 1);
    assert_eq!(port.asked()[6 * 12], Asked::Pause(500_000));
    for (i, addr) in [0x40u8, 0x48, 0x50, 0x58].iter().enumerate() {
        assert_eq!(seen[6 + 9 * i], (*addr, 0, true));
        assert!(seen[7 + 9 * i..15 + 9 * i].iter().all(|s| s.1 == 1 && s.0 < 0x20));
    }
    let ring: Vec<u8> = seen[25..33].iter().map(|s| s.0).collect();
    assert_eq!(ring, vec![0x0a, 0x00, 0x0e, 0x11, 0x11, 0x11, 0x11, 0x0e]);
}

#[test]
fn lines_are_sent_when_they_change() {
    let port = MockPort::new();
    let mut lcd = Lcd::new(port.clone());
    lcd.set_lines("", "").unwrap();
    assert_eq!(port.asked(), vec![]);
    lcd.set_lines("Hallå", "07:30").unwrap();
    let seen = taken(&port.asked());
    assert_eq!(seen.len(), 34);
    assert_eq!(seen[0], (LINE_1, 0, true));
    assert_eq!(seen[17], (LINE_2, 0, true));
    let first: Vec<u8> = seen[1..17].iter().map(|s| s.0).collect();
    let second: Vec<u8> = seen[18..34].iter().map(|s| s.0).collect();
    assert_eq!(first, b"Hall\x03           ".to_vec());
    assert_eq!(second, b"07:30           ".to_vec());
    assert!(seen[1..17].iter().all(|s| s.1 == 1));
    port.forget();
    lcd.set_lines("Hallå", "07:30").unwrap();
    assert_eq!(port.asked(), vec![]);
    lcd.set_lines("Hallå", "07:31").unwrap();
    assert_eq!(taken(&port.asked()).len(), 34);
}

#[test]
fn backlight_change_sends_the_lines_again() {
    let port = MockPort::new();
    let mut lcd = Lcd::new(port.clone());
    lcd.set_backlight(true).unwrap();
    assert_eq!(port.asked(), vec![]);
    lcd.set_backlight(false).unwrap();
    let seen = taken(&port.asked());
    assert_eq!(seen.len(), 34);
    assert!(seen.iter().all(|s| !s.2));
    port.forget();
    lcd.toggle_backlight().unwrap();
    let seen = taken(&port.asked());
    assert_eq!(seen.len(), 34);
    assert!(seen.iter().all(|s| s.2));
    port.forget();
    lcd.toggle_backlight().unwrap();
    assert!(taken(&port.asked()).iter().all(|s| !s.2));
}

#[test]
fn failed_write_stops_the_line() {
    let port = MockPort::new();
    let mut dev = LcdDev::new(port.clone(), false);
    *port.writes_left.borrow_mut() = Some(4);
    assert_eq!(dev.print_string("abc", LINE_1), Err(DisplayError::Transport));
    assert_eq!(port.asked().iter().filter(|a| matches!(a, Asked::Write(_))).count(), 5);
    *port.writes_left.borrow_mut() = None;
    port.forget();
    dev.print_buf(*b"0123456789abcdef", LINE_2).unwrap();
    let seen = taken(&port.asked());
    assert_eq!(seen[0], (LINE_2, 0, false));
    assert_eq!(seen[16], (b'f', 1, false));
    port.forget();
    dev.print_bytestr(b"xy", LINE_1).unwrap();
    let seen = taken(&port.asked());
    assert_eq!(seen[1].0, b'x');
    assert_eq!(seen[3].0, b' ');
    let back = dev.release();
    assert!(!back.asked().is_empty());
}
