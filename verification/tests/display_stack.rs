use std::cell::RefCell;
use std::rc::Rc;

use wump::alarm::Time;
use wump::bitmatrix::Vec2d;
use wump::bus::{ChipId, NT7108};
use wump::canvas::TextCanvas;
use wump::display::Display;
use wump::error::DisplayError;
use wump::expander::MCP23S17;
use wump::framebuffer::BufferedLcd;
use wump::link::{check_received, check_written, ExpanderLink, LinkFault};
use wump::panel::Lcd128x64;

/// What a link was asked to do, in order.
#[derive(Clone, Debug, PartialEq)]
enum Asked {
    Write(Vec<u8>),
    Transfer(Vec<u8>),
    Reset(bool),
    Select(bool),
    Pause(u32),
}

/// A link that records what it is asked and can be told to fail.
#[derive(Clone)]
struct MockLink {
    log: Rc<RefCell<Vec<Asked>>>,
    writes_left: Rc<RefCell<Option<usize>>>,
}

impl MockLink {
    fn new() -> MockLink {
        MockLink { log: Rc::new(RefCell::new(Vec::new())), writes_left: Rc::new(RefCell::new(None)) }
    }

    fn fail_after(&self, n: usize) {
        *self.writes_left.borrow_mut() = Some(n);
    }

    fn forget(&self) {
        self.log.borrow_mut().clear();
    }

    fn asked(&self) -> Vec<Asked> {
        self.log.borrow().clone()
    }
}

impl ExpanderLink for MockLink {
    fn write(&mut self, bytes: &[u8]) -> Result<usize, LinkFault> {
        self.log.borrow_mut().push(Asked::Write(bytes.to_vec()));
        let mut left = self.writes_left.borrow_mut();
        match *left {
            Some(0) => Ok(bytes.len() - 1),
            Some(n) => {
                *left = Some(n - 1);
                Ok(bytes.len())
            }
            None => Ok(bytes.len()),
        }
    }

    fn transfer(&mut self, tx: &[u8]) -> Result<Vec<u8>, LinkFault> {
        self.log.borrow_mut().push(Asked::Transfer(tx.to_vec()));
        Ok(vec![0, 0, 0x5a])
    }

    fn set_reset_line(&mut self, high: bool) {
        self.log.borrow_mut().push(Asked::Reset(high));
    }

    fn set_select_line(&mut self, high: bool) {
        self.log.borrow_mut().push(Asked::Select(high));
    }

    fn pause_micros(&mut self, micros: u32) {
        self.log.borrow_mut().push(Asked::Pause(micros));
    }
}

/// The bytes that the two chips latched: a chip takes the data lines when
/// the strobe falls while it is selected.
fn latched(asked: &[Asked], ctrl_at_start: u8) -> Vec<(ChipId, bool, u8)> {
    let mut ctrl = ctrl_at_start;
    let mut lines = 0u8;
    let mut out = Vec::new();
    for a in asked {
        if let Asked::Write(f) = a {
            assert_eq!(f.len(), 3);
            assert_eq!(f[0], 0x40);
            if f[1] == 0x12 {
                lines = f[2];
            } else if f[1] == 0x13 || f[1] == 0x15 {
                let fell = ctrl & 0x01 != 0 && f[2] & 0x01 == 0;
                ctrl = f[2];
                assert_ne!(ctrl & 0x30, 0x30);
                if fell && ctrl & 0x04 == 0 {
                    if ctrl & 0x10 != 0 {
                        out.push((ChipId::Chip1, ctrl & 0x02 != 0, lines));
                    }
                    if ctrl & 0x20 != 0 {
                        out.push((ChipId::Chip2, ctrl & 0x02 != 0, lines));
                    }
                }
            }
        }
    }
    out
}

/// The bursts among what the chips latched: page, panel column, data bytes.
fn bursts_of(latched: &[(ChipId, bool, u8)]) -> Vec<(u8, u8, Vec<u8>)> {
    let mut out: Vec<(u8, u8, Vec<u8>)> = Vec::new();
    let mut i = 0;
    while i < latched.len() {
        let (chip, is_data, page) = latched[i];
        assert!(!is_data);
        assert_eq!(page & 0xf8, 0xb8);
        let (chip2, is_data2, addr) = latched[i + 1];
        assert_eq!(chip, chip2);
        assert!(!is_data2);
        assert_eq!(addr & 0xc0, 0x40);
        let base = if chip == ChipId::Chip1 { 0 } else { 64 };
        let mut bytes = Vec::new();
        i += 2;
        while i < latched.len() && latched[i].1 {
            assert_eq!(latched[i].0, chip);
            bytes.push(latched[i].2);
            i += 1;
        }
        out.push((page & 0x07, base + (addr & 0x3f), bytes));
    }
    out
}

fn fresh() -> (BufferedLcd<MockLink>, MockLink) {
    let link = MockLink::new();
    let lcd = BufferedLcd::new(link.clone()).unwrap();
    link.forget();
    (lcd, link)
}

#[test]
fn cold_start_clears_every_byte() {
    let link = MockLink::new();
    let _lcd = BufferedLcd::new(link.clone()).unwrap();
    let seen = latched(&link.asked(), 0x0f);
    assert_eq!(seen[0], (ChipId::Chip1, false, 0x3f));
    assert_eq!(seen[1], (ChipId::Chip2, false, 0x3f));
    let bursts = bursts_of(&seen[2..]);
    assert_eq!(bursts.len(), 16);
    for page in 0..8u8 {
        assert_eq!(bursts[2 * page as usize], (page, 0, vec![0u8; 64]));
        assert_eq!(bursts[2 * page as usize + 1], (page, 64, vec![0u8; 64]));
    }
}

#[test]
fn writing_present_value_sends_nothing() {
    let (mut lcd, link) = fresh();
    lcd.set_byte(3, 17, 0x00).unwrap();
    lcd.set_bytes_at(5, 0, &[0u8; 128], false).unwrap();
    lcd.write_back().unwrap();
    assert_eq!(link.asked(), vec![]);
    lcd.set_byte(3, 17, 0x81).unwrap();
    lcd.write_back().unwrap();
    link.forget();
    lcd.set_byte(3, 17, 0x81).unwrap();
    lcd.write_back().unwrap();
    assert_eq!(link.asked(), vec![]);
}

#[test]
fn adjacent_dirty_cells_go_in_one_burst() {
    let (mut lcd, link) = fresh();
    lcd.set_bytes_at(0, 0, &[0x11, 0x22, 0x33], true).unwrap();
    link.forget();
    lcd.set_bytes_at(0, 0, &[0xff, 0x00, 0xff], false).unwrap();
    lcd.write_back().unwrap();
    let bursts = bursts_of(&latched(&link.asked(), 0x0f));
    assert_eq!(bursts, vec![(0, 0, vec![0xff, 0x00, 0xff])]);
    link.forget();
    lcd.write_back().unwrap();
    assert_eq!(link.asked(), vec![]);
}

#[test]
fn dirty_cells_apart_go_in_two_bursts() {
    let (mut lcd, link) = fresh();
    lcd.set_byte(0, 0, 0xff).unwrap();
    lcd.set_byte(0, 2, 0xff).unwrap();
    lcd.write_back().unwrap();
    let bursts = bursts_of(&latched(&link.asked(), 0x0f));
    assert_eq!(bursts, vec![(0, 0, vec![0xff]), (0, 2, vec![0xff])]);
}

#[test]
fn failed_burst_stays_dirty() {
    let (mut lcd, link) = fresh();
    lcd.set_byte(1, 5, 0x0f).unwrap();
    lcd.set_byte(2, 9, 0xf0).unwrap();
    link.fail_after(30);
    assert_eq!(lcd.write_back(), Err(DisplayError::Transport));
    *link.writes_left.borrow_mut() = None;
    link.forget();
    lcd.write_back().unwrap();
    let bursts = bursts_of(&latched(&link.asked(), 0x0f));
    assert_eq!(bursts.last().unwrap(), &(2, 9, vec![0xf0]));
}

#[test]
fn run_beyond_the_page_is_refused() {
    let (mut lcd, link) = fresh();
    assert_eq!(lcd.set_bytes_at(0, 127, &[1, 2], true), Err(DisplayError::Geometry));
    assert_eq!(lcd.set_bytes_at(8, 0, &[1], true), Err(DisplayError::Geometry));
    assert_eq!(lcd.set_byte(0, 128, 1), Err(DisplayError::Geometry));
    assert_eq!(lcd.set_bit(64, 0, true), Err(DisplayError::Geometry));
    lcd.write_back().unwrap();
    assert_eq!(link.asked(), vec![]);
}

#[test]
fn set_bit_addresses_page_and_bit() {
    let (mut lcd, link) = fresh();
    lcd.set_bit(10, 3, true).unwrap();
    lcd.set_bit(15, 3, true).unwrap();
    lcd.write_back().unwrap();
    let bursts = bursts_of(&latched(&link.asked(), 0x0f));
    assert_eq!(bursts, vec![(1, 3, vec![0x84])]);
    link.forget();
    lcd.set_bit(10, 3, false).unwrap();
    lcd.write_back().unwrap();
    let bursts = bursts_of(&latched(&link.asked(), 0x0f));
    assert_eq!(bursts, vec![(1, 3, vec![0x80])]);
}

fn w(addr: u8, val: u8) -> Asked {
    Asked::Write(vec![0x40, addr, val])
}

#[test]
fn expander_frames_are_bit_exact() {
    let link = MockLink::new();
    let mut dev = MCP23S17::new(link.clone());
    assert_eq!(link.asked(), vec![Asked::Select(true), Asked::Reset(true)]);
    link.forget();
    dev.reset();
    assert_eq!(link.asked(), vec![Asked::Reset(false), Asked::Pause(1), Asked::Reset(true)]);
    link.forget();
    dev.write_reg(0x13, 0xa5).unwrap();
    dev.write_reg_rep(0x12, &[1, 2, 3, 4]).unwrap();
    assert_eq!(dev.read_reg(0x12), Ok(0x5a));
    assert_eq!(
        link.asked(),
        vec![
            Asked::Write(vec![0x40, 0x13, 0xa5]),
            Asked::Write(vec![0x40, 0x12, 1, 2, 3, 4]),
            Asked::Transfer(vec![0x41, 0x12, 0x00]),
        ]
    );
}

#[test]
fn short_write_is_a_transport_error() {
    let link = MockLink::new();
    let mut dev = MCP23S17::new(link.clone());
    link.fail_after(0);
    assert_eq!(dev.write_reg(0x13, 0x01), Err(DisplayError::Transport));
    assert_eq!(check_written(3, Ok(3)), Ok(()));
    assert_eq!(check_written(3, Ok(2)), Err(DisplayError::Transport));
    assert_eq!(check_written(3, Ok(4)), Err(DisplayError::Transport));
    assert_eq!(check_written(3, Err(LinkFault)), Err(DisplayError::Transport));
    assert_eq!(check_received(Ok(vec![1, 2, 3])), Ok(3));
    assert_eq!(check_received(Ok(vec![1, 2])), Err(DisplayError::Transport));
    assert_eq!(check_received(Err(LinkFault)), Err(DisplayError::Transport));
}

#[test]
fn bus_start_up_sequence() {
    let link = MockLink::new();
    let _bus = NT7108::new(link.clone()).unwrap();
    assert_eq!(
        link.asked(),
        vec![
            Asked::Select(true),
            Asked::Reset(true),
            Asked::Reset(false),
            Asked::Pause(1),
            Asked::Reset(true),
            w(0x05, 0x20),
            w(0x00, 0xff),
            w(0x15, 0x0f),
            w(0x01, 0x00),
            w(0x13, 0x07),
            Asked::Pause(1),
            w(0x13, 0x0f),
            Asked::Pause(1),
        ]
    );
}

#[test]
fn bus_write_sequence() {
    let link = MockLink::new();
    let mut bus = NT7108::new(link.clone()).unwrap();
    link.forget();
    bus.write_data(ChipId::Chip2, 0xc3).unwrap();
    assert_eq!(
        link.asked(),
        vec![
            w(0x13, 0x0b),
            w(0x00, 0x00),
            w(0x12, 0xc3),
            w(0x13, 0x2b),
            Asked::Pause(1),
            w(0x13, 0x2a),
            Asked::Pause(1),
            w(0x13, 0x0a),
            w(0x13, 0x0b),
            w(0x00, 0xff),
            w(0x13, 0x0f),
        ]
    );
    link.forget();
    bus.set_page(ChipId::Chip1, 0x0b).unwrap();
    assert_eq!(latched(&link.asked(), 0x0f), vec![(ChipId::Chip1, false, 0xbb)]);
    link.forget();
    bus.set_addr(ChipId::Chip1, 0x45).unwrap();
    bus.set_startline(ChipId::Chip2, 0x47).unwrap();
    bus.set_onoff(ChipId::Chip1, true).unwrap();
    bus.set_onoff(ChipId::Chip1, false).unwrap();
    assert_eq!(
        latched(&link.asked(), 0x0d),
        vec![
            (ChipId::Chip1, false, 0x45),
            (ChipId::Chip2, false, 0xc7),
            (ChipId::Chip1, false, 0x3f),
            (ChipId::Chip1, false, 0x3e),
        ]
    );
}

#[test]
fn bus_read_sequence() {
    let link = MockLink::new();
    let mut bus = NT7108::new(link.clone()).unwrap();
    link.forget();
    assert_eq!(bus.read_status(ChipId::Chip1), Ok(0x5a));
    assert_eq!(
        link.asked(),
        vec![
            w(0x00, 0xff),
            w(0x13, 0x0d),
            w(0x13, 0x1d),
            Asked::Pause(1),
            Asked::Transfer(vec![0x41, 0x12, 0x00]),
            w(0x13, 0x0d),
        ]
    );
    link.forget();
    assert_eq!(bus.read_data(ChipId::Chip2), Ok(0x5a));
    assert_eq!(
        link.asked(),
        vec![
            w(0x00, 0xff),
            w(0x13, 0x0f),
            w(0x13, 0x2f),
            Asked::Pause(1),
            Asked::Transfer(vec![0x41, 0x12, 0x00]),
            w(0x13, 0x0f),
        ]
    );
}

#[test]
fn control_register_is_written_only_on_change() {
    let link = MockLink::new();
    let mut bus = NT7108::new(link.clone()).unwrap();
    link.forget();
    bus.set_backlight(false).unwrap();
    assert_eq!(link.asked(), vec![]);
    bus.set_backlight(true).unwrap();
    bus.set_backlight(true).unwrap();
    assert_eq!(link.asked(), vec![w(0x13, 0x8f)]);
    link.forget();
    link.fail_after(0);
    assert_eq!(bus.set_backlight(false), Err(DisplayError::Transport));
    *link.writes_left.borrow_mut() = None;
    link.forget();
    bus.set_backlight(true).unwrap();
    assert_eq!(link.asked(), vec![]);
    bus.set_backlight(false).unwrap();
    assert_eq!(link.asked(), vec![w(0x13, 0x0f)]);
}

#[test]
fn burst_is_split_at_the_chip_boundary() {
    let link = MockLink::new();
    let mut lcd = Lcd128x64::new(link.clone()).unwrap();
    link.forget();
    let bytes: Vec<u8> = (1..=70).collect();
    assert_eq!(lcd.set_bytes_at(0, 40, &bytes), Ok(70));
    let seen = latched(&link.asked(), 0x0f);
    assert_eq!(seen.len(), 2 + 24 + 2 + 46);
    assert_eq!(seen[0], (ChipId::Chip1, false, 0xb8));
    assert_eq!(seen[1], (ChipId::Chip1, false, 0x40 | 40));
    for i in 0..24 {
        assert_eq!(seen[2 + i], (ChipId::Chip1, true, bytes[i]));
    }
    assert_eq!(seen[26], (ChipId::Chip2, false, 0xb8));
    assert_eq!(seen[27], (ChipId::Chip2, false, 0x40));
    for i in 0..46 {
        assert_eq!(seen[28 + i], (ChipId::Chip2, true, bytes[24 + i]));
    }
}

#[test]
fn burst_is_capped_at_the_panel_edge() {
    let link = MockLink::new();
    let mut lcd = Lcd128x64::new(link.clone()).unwrap();
    link.forget();
    assert_eq!(lcd.set_bytes_at(3, 126, &[9, 8, 7, 6]), Ok(2));
    assert_eq!(bursts_of(&latched(&link.asked(), 0x0f)), vec![(3, 126, vec![9, 8])]);
    link.forget();
    assert_eq!(lcd.set_bytes_at(2, 10, &[]), Ok(0));
    assert_eq!(bursts_of(&latched(&link.asked(), 0x0f)), vec![(2, 10, vec![])]);
    link.forget();
    assert_eq!(lcd.set_bytes_at(8, 0, &[1]), Err(DisplayError::Geometry));
    assert_eq!(lcd.set_bytes_at(0, 128, &[1]), Err(DisplayError::Geometry));
    assert_eq!(link.asked(), vec![]);
}

#[test]
fn panel_fill_and_switches() {
    let link = MockLink::new();
    let mut lcd = Lcd128x64::new(link.clone()).unwrap();
    assert!(!lcd.get_backlight());
    link.forget();
    lcd.set_onoff(true).unwrap();
    assert_eq!(
        latched(&link.asked(), 0x0f),
        vec![(ChipId::Chip1, false, 0x3f), (ChipId::Chip2, false, 0x3f)]
    );
    link.forget();
    lcd.fill_byte(0xaa).unwrap();
    let seen = latched(&link.asked(), 0x0d);
    assert_eq!(seen.len(), 2 * (2 + 8 * 65));
    assert_eq!(seen[0], (ChipId::Chip1, false, 0xc0));
    assert_eq!(seen[1], (ChipId::Chip1, false, 0x40));
    assert_eq!(seen[2], (ChipId::Chip1, false, 0xb8));
    assert_eq!(seen[3], (ChipId::Chip1, true, 0xaa));
    assert_eq!(seen[2 + 65], (ChipId::Chip1, false, 0xb9));
    assert_eq!(seen[2 + 8 * 65], (ChipId::Chip2, false, 0xc0));
    link.forget();
    lcd.clear().unwrap();
    let seen = latched(&link.asked(), 0x0f);
    assert_eq!(seen.iter().filter(|s| s.1).count(), 1024);
    assert!(seen.iter().filter(|s| s.1).all(|s| s.2 == 0));
    link.forget();
    lcd.set_backlight(true).unwrap();
    assert!(lcd.get_backlight());
    lcd.set_backlight(true).unwrap();
    assert_eq!(link.asked(), vec![w(0x13, 0x8f)]);
}

#[test]
fn bit_matrix_lays_over_pages() {
    let (mut lcd, link) = fresh();
    let mut bits = Vec2d::new(3, 2);
    bits.set(0, 0, true);
    bits.set(1, 1, true);
    bits.set(2, 0, true);
    lcd.set_bits_at(6, 5, &bits, true).unwrap();
    let bursts = bursts_of(&latched(&link.asked(), 0x0f));
    assert_eq!(bursts, vec![(0, 5, vec![0x40, 0x80]), (1, 5, vec![0x01])]);
    link.forget();
    let blank = Vec2d::new(3, 2);
    lcd.set_bits_at(6, 5, &blank, false).unwrap();
    assert_eq!(link.asked(), vec![]);
    lcd.write_back().unwrap();
    let bursts = bursts_of(&latched(&link.asked(), 0x0f));
    assert_eq!(bursts, vec![(0, 5, vec![0x00, 0x00]), (1, 5, vec![0x00])]);
    link.forget();
    let wide = Vec2d::new(1, 129);
    assert_eq!(lcd.set_bits_at(0, 0, &wide, true), Err(DisplayError::Geometry));
    let tall = Vec2d::new(2, 1);
    assert_eq!(lcd.set_bits_at(63, 0, &tall, true), Err(DisplayError::Geometry));
    assert_eq!(lcd.set_bits_at(62, 127, &tall, true), Ok(()));
    assert_eq!(link.asked(), vec![]);
}

/// The panel as the chips hold it after everything that was latched.
fn panel_image(seen: &[(ChipId, bool, u8)]) -> Vec<Vec<bool>> {
    let mut cells = vec![[0u8; 128]; 8];
    for (page, col, bytes) in bursts_of(seen) {
        for (i, b) in bytes.iter().enumerate() {
            cells[page as usize][col as usize + i] = *b;
        }
    }
    (0..64).map(|y| (0..128).map(|x| cells[y / 8][x] & (1 << (y % 8)) != 0).collect()).collect()
}

#[test]
fn text_is_centred_in_its_canvas() {
    let (mut lcd, link) = fresh();
    let font = bitmap_font::FONT_7x13;
    let canvas = TextCanvas::new(&font, [4, 8], [44, 24]).unwrap();
    assert_eq!(canvas.width(), 40);
    assert_eq!(canvas.height(), 16);
    canvas.render_text(&mut lcd, "HIM").unwrap();
    let image = panel_image(&latched(&link.asked(), 0x0f));
    let pad = (40 - 3 * 7) / 2;
    assert_eq!(pad, 9);
    let text: Vec<char> = "HIM".chars().collect();
    let mut lit = 0;
    for y in 0..64usize {
        for x in 0..128usize {
            let inside = y >= 8 && y < 8 + 13 && x >= 4 + pad && x < 4 + pad + 21;
            let want = if inside {
                let c = x - 4 - pad;
                font.pixel(text[c / 7], (c % 7) as u32, (y - 8) as u32)
            } else {
                false
            };
            assert_eq!(image[y][x], want, "pixel {} {}", y, x);
            lit += want as usize;
        }
    }
    assert!(lit > 20);
    assert!((0..13).any(|y| image[8 + y][4 + pad + 1]));
}

#[test]
fn text_too_wide_is_refused_and_nothing_is_sent() {
    let (mut lcd, link) = fresh();
    let font = bitmap_font::FONT_7x13;
    let canvas = TextCanvas::new(&font, [0, 0], [20, 16]).unwrap();
    assert_eq!(canvas.render_text(&mut lcd, "abc"), Err(DisplayError::Geometry));
    canvas.render_text(&mut lcd, "").unwrap();
    lcd.write_back().unwrap();
    assert_eq!(link.asked(), vec![]);
    canvas.render_text(&mut lcd, "ab").unwrap();
    assert!(!link.asked().is_empty());
    link.forget();
    let beyond = TextCanvas::new(&font, [100, 0], [130, 16]).unwrap();
    assert_eq!(beyond.render_text(&mut lcd, "a"), Err(DisplayError::Geometry));
    assert_eq!(link.asked(), vec![]);
}

#[test]
fn canvas_corners_and_font_height_are_checked() {
    let font = bitmap_font::FONT_7x13;
    assert!(matches!(TextCanvas::new(&font, [5, 0], [5, 16]), Err(DisplayError::Geometry)));
    assert!(matches!(TextCanvas::new(&font, [0, 16], [5, 16]), Err(DisplayError::Geometry)));
    assert!(matches!(TextCanvas::new(&font, [0, 0], [128, 12]), Err(DisplayError::FontMismatch)));
    assert!(TextCanvas::new(&font, [0, 0], [128, 13]).is_ok());
    let large = bitmap_font::FONT_16x32;
    assert!(matches!(TextCanvas::new(&large, [0, 16], [128, 47]), Err(DisplayError::FontMismatch)));
    assert!(TextCanvas::new(&large, [0, 16], [128, 48]).is_ok());
}

#[test]
fn every_character_has_a_glyph_in_both_fonts() {
    let small = bitmap_font::FONT_7x13;
    let large = bitmap_font::FONT_16x32;
    assert_eq!((small.width(), small.height()), (7, 13));
    assert_eq!((large.width(), large.height()), (16, 32));
    for code in 0..0x11_0000u32 {
        if let Some(c) = char::from_u32(code) {
            small.pixel(c, 0, 0);
            small.pixel(c, 6, 12);
            large.pixel(c, 0, 0);
            large.pixel(c, 15, 31);
        }
    }
}

#[test]
fn display_shows_three_lines() {
    let link = MockLink::new();
    let mut dpy = Display::new(link.clone()).unwrap();
    assert!(!dpy.get_backlight());
    link.forget();
    dpy.set_top_line("Wake-Up MP 0.5").unwrap();
    dpy.show_time(&Time::new(7, 5)).unwrap();
    dpy.set_bottom_line("A: Disabled").unwrap();
    let image = panel_image(&latched(&link.asked(), 0x0f));
    let small = bitmap_font::FONT_7x13;
    let large = bitmap_font::FONT_16x32;
    let lines: [(&str, usize, bitmap_font::BitmapFont); 3] =
        [("Wake-Up MP 0.5", 0, small), ("07:05", 16, large), ("A: Disabled", 48, small)];
    let mut want = vec![vec![false; 128]; 64];
    for (text, top, font) in lines {
        let gw = font.width() as usize;
        let chars: Vec<char> = text.chars().collect();
        let pad = (128 - chars.len() * gw) / 2;
        for y in 0..font.height() as usize {
            for c in 0..chars.len() * gw {
                want[top + y][pad + c] = font.pixel(chars[c / gw], (c % gw) as u32, y as u32);
            }
        }
    }
    assert_eq!(image, want);
    link.forget();
    dpy.set_top_line("Wake-Up MP 0.5").unwrap();
    assert_eq!(link.asked(), vec![]);
    dpy.clear().unwrap();
    let seen = latched(&link.asked(), 0x0f);
    assert!(!seen.is_empty());
    assert!(seen.iter().filter(|s| s.1).all(|s| s.2 == 0));
    link.forget();
    dpy.clear().unwrap();
    assert_eq!(link.asked(), vec![]);
}

#[test]
fn display_refuses_long_lines() {
    let link = MockLink::new();
    let mut dpy = Display::new(link.clone()).unwrap();
    link.forget();
    assert_eq!(dpy.set_top_line("1234567890123456789"), Err(DisplayError::Geometry));
    assert_eq!(dpy.set_bottom_line("1234567890123456789"), Err(DisplayError::Geometry));
    assert_eq!(dpy.show_time(&Time::new(100, 100)), Ok(()));
    link.forget();
    assert_eq!(dpy.show_time(&Time::new(200, 200)), Ok(()));
    dpy.set_top_line("123456789012345678").unwrap();
    dpy.set_backlight(true).unwrap();
    assert!(dpy.get_backlight());
    let link_back = dpy.release();
    assert!(!link_back.asked().is_empty());
}

#[test]
fn display_start_up_fails_with_the_link() {
    let link = MockLink::new();
    link.fail_after(3);
    assert!(matches!(Display::new(link.clone()), Err(DisplayError::Transport)));
    assert_eq!(DisplayError::Transport.to_str(), "serial transfer failed or was cut short");
    assert_eq!(DisplayError::Geometry.to_str(), "content does not fit at the addressed position");
    assert_eq!(DisplayError::FontMismatch.to_str(), "font does not match the text or the canvas");
}

/// The bursts that the chips must see for the dirty cells: one for each run
/// of them in a page, cut in two where it passes from one chip to the other.
fn runs_of(dirty: &[[bool; 128]; 8], cells: &[[u8; 128]; 8]) -> Vec<(u8, u8, Vec<u8>)> {
    let mut out = Vec::new();
    for row in 0..8 {
        let mut start: Option<usize> = None;
        for col in 0..=128 {
            let is_dirty = col < 128 && dirty[row][col];
            match (start, is_dirty) {
                (None, true) => start = Some(col),
                (Some(s), false) => {
                    if s < 64 && col > 64 {
                        out.push((row as u8, s as u8, cells[row][s..64].to_vec()));
                        out.push((row as u8, 64, cells[row][64..col].to_vec()));
                    } else {
                        out.push((row as u8, s as u8, cells[row][s..col].to_vec()));
                    }
                    start = None;
                }
                _ => {}
            }
        }
    }
    out
}

#[test]
fn flush_sends_exactly_the_dirty_runs() {
    let (mut lcd, link) = fresh();
    let mut cells = [[0u8; 128]; 8];
    let mut seed: u32 = 12345;
    let mut next = move |n: u32| {
        seed = seed.wrapping_mul(1664525).wrapping_add(1013904223);
        (seed >> 8) % n
    };
    for round in 0..60 {
        let mut dirty = [[false; 128]; 8];
        for _ in 0..next(12) {
            let row = next(8) as usize;
            let col = next(128) as usize;
            let len = (1 + next(40) as usize).min(128 - col);
            let bytes: Vec<u8> =
                (0..len).map(|_| if next(3) == 0 { 0 } else { next(256) as u8 }).collect();
            if round % 2 == 0 {
                lcd.set_bytes_at(row, col, &bytes, false).unwrap();
                for (i, b) in bytes.iter().enumerate() {
                    dirty[row][col + i] |= cells[row][col + i] != *b;
                    cells[row][col + i] = *b;
                }
            } else {
                for (i, b) in bytes.iter().enumerate() {
                    lcd.set_bit(row * 8 + i % 8, col, b & 1 != 0).unwrap();
                    let was = cells[row][col];
                    if b & 1 != 0 {
                        cells[row][col] |= 1 << (i % 8);
                    } else {
                        cells[row][col] &= !(1 << (i % 8));
                    }
                    dirty[row][col] |= cells[row][col] != was;
                }
            }
        }
        link.forget();
        lcd.write_back().unwrap();
        assert_eq!(bursts_of(&latched(&link.asked(), 0x0f)), runs_of(&dirty, &cells));
        link.forget();
        lcd.write_back().unwrap();
        assert_eq!(link.asked(), vec![]);
    }
}
