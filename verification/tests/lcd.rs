use lcd_lcm1602::driver::Lcd;
use lcd_lcm1602::proto::{Backlight, BusError, BusOp, Font, Mode};
use lcd_lcm1602::recorder::Recorder;

const ADDR: u8 = 0x27;
const BL: u8 = 0x08;

fn w(byte: u8) -> BusOp {
    BusOp::Write { addr: ADDR, byte }
}

/// The three writes and settle delay of one nibble transaction.
fn frame(payload: u8, bl: u8) -> Vec<BusOp> {
    vec![
        BusOp::Write { addr: ADDR, byte: payload | bl },
        BusOp::Write { addr: ADDR, byte: payload | 0x04 | bl },
        BusOp::Write { addr: ADDR, byte: bl },
        BusOp::DelayUs { us: 700 },
    ]
}

/// The two nibble transactions of one register write.
fn send(data: u8, mode: u8, bl: u8) -> Vec<BusOp> {
    let mut v = frame((data & 0xf0) | mode, bl);
    v.extend(frame(((data << 4) & 0xf0) | mode, bl));
    v
}

fn fresh(rows: u8, cols: u8) -> Lcd<Recorder> {
    Lcd::new(Recorder::new(), rows, cols).with_address(ADDR)
}

#[test]
fn write4bits_pulses_enable_and_settles() {
    let mut lcd = fresh(2, 16);
    lcd.write4bits(0x30).unwrap();
    assert_eq!(lcd.hw.log, frame(0x30, BL));
    assert_eq!(lcd.hw.log.len(), 4);
    // enable low, enable high, enable low, then the settle wait
    assert_eq!(lcd.hw.log[0], w(0x38));
    assert_eq!(lcd.hw.log[1], w(0x3c));
    assert_eq!(lcd.hw.log[2], w(0x08));
    assert_eq!(lcd.hw.log[3], BusOp::DelayUs { us: 700 });
}

#[test]
fn send_splits_into_two_nibbles_same_mode() {
    let mut lcd = fresh(2, 16);
    lcd.send(0xab, Mode::Data).unwrap();
    assert_eq!(lcd.hw.log, send(0xab, 0x01, BL));
    // first transaction carries bits 4-7, second carries bits 0-3 shifted up
    assert_eq!(lcd.hw.log[0], w(0xa0 | 0x01 | BL));
    assert_eq!(lcd.hw.log[4], w(0xb0 | 0x01 | BL));
}

#[test]
fn send_command_mode_keeps_register_select_low() {
    let mut lcd = fresh(2, 16);
    lcd.send(0xab, Mode::Cmd).unwrap();
    assert_eq!(lcd.hw.log, send(0xab, 0x00, BL));
}

#[test]
fn set_cursor_uses_generic_offsets() {
    let mut lcd = fresh(2, 16);
    lcd.set_cursor(1, 3).unwrap();
    assert_eq!(lcd.hw.log, send(0x80 | (0x40 + 3), 0x00, BL));
}

#[test]
fn set_cursor_16x4_uses_exception_table() {
    let mut lcd = fresh(4, 16);
    lcd.set_cursor(2, 0).unwrap();
    assert_eq!(lcd.hw.log, send(0x80 | 0x10, 0x00, BL));
    let mut lcd = fresh(4, 16);
    lcd.set_cursor(3, 5).unwrap();
    assert_eq!(lcd.hw.log, send(0x80 | (0x50 + 5), 0x00, BL));
}

#[test]
fn set_cursor_20x4_uses_generic_table() {
    let mut lcd = fresh(4, 20);
    lcd.set_cursor(2, 0).unwrap();
    assert_eq!(lcd.hw.log, send(0x80 | 0x14, 0x00, BL));
}

#[test]
fn set_cursor_largest_geometry() {
    let mut lcd = fresh(4, 40);
    lcd.set_cursor(3, 39).unwrap();
    assert_eq!(lcd.hw.log, send(0x80 | (0x54 + 39), 0x00, BL));
}

#[test]
fn clear_sends_clear_then_waits() {
    let mut lcd = fresh(2, 16);
    lcd.clear().unwrap();
    let mut expected = send(0x01, 0x00, BL);
    expected.push(BusOp::DelayMs { ms: 2 });
    assert_eq!(lcd.hw.log, expected);
}

#[test]
fn return_home_sends_home_then_waits() {
    let mut lcd = fresh(2, 16);
    lcd.return_home().unwrap();
    let mut expected = send(0x02, 0x00, BL);
    expected.push(BusOp::DelayMs { ms: 2 });
    assert_eq!(lcd.hw.log, expected);
}

#[test]
fn scroll_commands_send_fixed_bytes() {
    let mut lcd = fresh(2, 16);
    lcd.scroll_cursor_left().unwrap();
    assert_eq!(lcd.hw.log, send(0x10, 0x00, BL));
    lcd.hw.reset();
    lcd.scroll_cursor_right().unwrap();
    assert_eq!(lcd.hw.log, send(0x14, 0x00, BL));
    lcd.hw.reset();
    lcd.scroll_display_left().unwrap();
    assert_eq!(lcd.hw.log, send(0x18, 0x00, BL));
    lcd.hw.reset();
    lcd.scroll_display_right().unwrap();
    assert_eq!(lcd.hw.log, send(0x1c, 0x00, BL));
}

#[test]
fn cursor_on_twice_sends_identical_control_writes() {
    let mut lcd = fresh(2, 16);
    lcd.cursor_on(true).unwrap();
    lcd.cursor_on(true).unwrap();
    let half = lcd.hw.log.len() / 2;
    assert_eq!(lcd.hw.log[..half], lcd.hw.log[half..]);
    assert!(lcd.cursor_on);
    // display on + cursor on
    assert_eq!(lcd.hw.log[..half].to_vec(), send(0x08 | 0x04 | 0x02, 0x00, BL));
}

#[test]
fn cursor_blink_resends_full_display_control() {
    let mut lcd = fresh(2, 16);
    lcd.cursor_blink(true).unwrap();
    assert_eq!(lcd.hw.log, send(0x08 | 0x04 | 0x01, 0x00, BL));
    assert!(lcd.cursor_blink);
    lcd.hw.reset();
    lcd.cursor_on(true).unwrap();
    // the blink bit set earlier is restated, never lost
    assert_eq!(lcd.hw.log, send(0x08 | 0x04 | 0x02 | 0x01, 0x00, BL));
}

#[test]
fn backlight_round_trip_touches_only_backlight_bit() {
    let mut lcd = fresh(2, 16);
    lcd.backlight(Backlight::Off).unwrap();
    lcd.backlight(Backlight::On).unwrap();
    assert_eq!(lcd.hw.log, vec![w(0x00), w(0x08)]);
    let off_byte = 0x00u8;
    let on_byte = 0x08u8;
    assert_eq!(on_byte & 0x08, 0x08);
    assert_eq!(on_byte & !0x08, off_byte & !0x08);
    assert!(matches!(lcd.backlight_state, Backlight::On));
}

#[test]
fn backlight_off_darkens_following_writes() {
    let mut lcd = fresh(2, 16);
    lcd.backlight(Backlight::Off).unwrap();
    lcd.hw.reset();
    lcd.clear().unwrap();
    let mut expected = send(0x01, 0x00, 0x00);
    expected.push(BusOp::DelayMs { ms: 2 });
    assert_eq!(lcd.hw.log, expected);
}

#[test]
fn font_mode_resends_full_function_set() {
    let mut lcd = fresh(2, 16);
    lcd.font_mode(Font::Font5x10).unwrap();
    // 4-bit width, two-line bit, 5x10 font bit
    assert_eq!(lcd.hw.log, send(0x20 | 0x04 | 0x08, 0x00, BL));
    assert!(matches!(lcd.font_mode, Font::Font5x10));
}

#[test]
fn font_mode_single_row_clears_line_bit() {
    let mut lcd = fresh(1, 16);
    lcd.font_mode(Font::Font5x8).unwrap();
    assert_eq!(lcd.hw.log, send(0x20, 0x00, BL));
}

#[test]
fn write_str_sends_one_data_write_per_char() {
    let mut lcd = fresh(2, 16);
    lcd.write_str("AB").unwrap();
    let mut expected = send(0x41, 0x01, BL);
    expected.extend(send(0x42, 0x01, BL));
    assert_eq!(lcd.hw.log, expected);
}

#[test]
fn write_str_empty_sends_nothing() {
    let mut lcd = fresh(2, 16);
    lcd.write_str("").unwrap();
    assert_eq!(lcd.hw.log, Vec::new());
}

#[test]
fn create_char_masks_location_and_sends_bitmap() {
    let bitmap: [u8; 8] = [0x0e, 0x11, 0x11, 0x1f, 0x11, 0x11, 0x11, 0x00];
    let mut lcd = fresh(2, 16);
    lcd.create_char(9, &bitmap).unwrap();
    // 9 & 0x7 == 1, CGRAM address command 0x40 | (1 << 3)
    let mut expected = send(0x40 | (1 << 3), 0x00, BL);
    for b in bitmap.iter() {
        expected.extend(send(*b, 0x01, BL));
    }
    assert_eq!(lcd.hw.log, expected);
    // one addressing command and exactly eight data-mode register writes
    assert_eq!(lcd.hw.log.len(), 8 + 8 * 8);
}

#[test]
fn init_emits_documented_delay_schedule() {
    let mut lcd = fresh(2, 16);
    lcd.init().unwrap();
    let mut ms: Vec<u32> = Vec::new();
    for op in lcd.hw.log.iter() {
        if let BusOp::DelayMs { ms: m } = op {
            ms.push(*m);
        }
    }
    assert_eq!(ms, vec![80, 1, 5, 5, 5, 2, 2]);
    let total: u32 = ms.iter().sum();
    assert_eq!(total, 100);
}

#[test]
fn init_emits_full_handshake_trace() {
    let mut lcd = fresh(2, 16);
    lcd.init().unwrap();
    let mut expected = vec![BusOp::DelayMs { ms: 80 }, w(BL), BusOp::DelayMs { ms: 1 }];
    for _ in 0..3 {
        expected.extend(frame(0x30, BL));
        expected.push(BusOp::DelayMs { ms: 5 });
    }
    expected.extend(frame(0x20, BL));
    // function set: 4-bit, two lines, 5x8 font
    expected.extend(send(0x20 | 0x08, 0x00, BL));
    // display control: display on, cursor hidden, no blink
    expected.extend(send(0x08 | 0x04, 0x00, BL));
    // clear
    expected.extend(send(0x01, 0x00, BL));
    expected.push(BusOp::DelayMs { ms: 2 });
    // entry mode
    expected.extend(send(0x04 | 0x02, 0x00, BL));
    // return home
    expected.extend(send(0x02, 0x00, BL));
    expected.push(BusOp::DelayMs { ms: 2 });
    assert_eq!(lcd.hw.log, expected);
}

#[test]
fn init_applies_configured_cursor_state() {
    let mut lcd = Lcd::new(Recorder::new(), 2, 16)
        .with_address(ADDR)
        .with_cursor_on(true)
        .with_cursor_blink(true);
    lcd.init().unwrap();
    // display control carries cursor and blink bits
    let expected_ctrl = send(0x08 | 0x04 | 0x02 | 0x01, 0x00, BL);
    let log = &lcd.hw.log;
    let mut found = false;
    for i in 0..log.len() {
        if i + expected_ctrl.len() <= log.len()
            && log[i..i + expected_ctrl.len()] == expected_ctrl[..]
        {
            found = true;
        }
    }
    assert!(found);
}

#[test]
fn builders_set_options() {
    let lcd = Lcd::new(Recorder::new(), 3, 20)
        .with_address(0x3f)
        .with_cursor_on(true)
        .with_cursor_blink(false);
    assert_eq!(lcd.address, 0x3f);
    assert_eq!(lcd.rows, 3);
    assert_eq!(lcd.cols, 20);
    assert!(lcd.cursor_on);
    assert!(!lcd.cursor_blink);
    assert!(matches!(lcd.backlight_state, Backlight::On));
    assert!(matches!(lcd.font_mode, Font::Font5x8));
}

#[test]
fn bus_error_on_second_write_stops_operation() {
    // the write attempt with index 1 — the enable-high write of the first
    // nibble — fails
    let mut lcd = Lcd::new(Recorder::failing_at(1), 2, 16).with_address(ADDR);
    let r = lcd.clear();
    assert_eq!(r, Err(BusError));
    // exactly one write went out, nothing after the failure
    assert_eq!(lcd.hw.log, vec![w(0x08)]);
}

#[test]
fn bus_error_in_init_aborts_immediately() {
    // fail the first probe's first write: attempt 0 is the backlight write,
    // attempt 1 is the first write of the first 8-bit probe
    let mut lcd = Lcd::new(Recorder::failing_at(1), 2, 16).with_address(ADDR);
    let r = lcd.init();
    assert_eq!(r, Err(BusError));
    assert_eq!(
        lcd.hw.log,
        vec![BusOp::DelayMs { ms: 80 }, w(BL), BusOp::DelayMs { ms: 1 }]
    );
}

#[test]
fn bus_error_mid_create_char_stops_bitmap_upload() {
    // each register write is six write attempts; attempts 0-5 deliver the
    // CGRAM command and 6-17 the first two bitmap bytes, so attempt 18 is
    // the first write of the third byte's transaction
    let bitmap: [u8; 8] = [1, 2, 3, 4, 5, 6, 7, 8];
    let mut lcd = Lcd::new(Recorder::failing_at(18), 2, 16).with_address(ADDR);
    let r = lcd.create_char(0, &bitmap);
    assert_eq!(r, Err(BusError));
    let mut expected = send(0x40, 0x00, BL);
    expected.extend(send(1, 0x01, BL));
    expected.extend(send(2, 0x01, BL));
    assert_eq!(lcd.hw.log, expected);
}

#[test]
fn recorder_reset_clears_log() {
    let mut lcd = fresh(2, 16);
    lcd.clear().unwrap();
    assert!(!lcd.hw.log.is_empty());
    lcd.hw.reset();
    assert!(lcd.hw.log.is_empty());
    assert_eq!(lcd.hw.recorded().len(), 0);
}
