//! The display driver: mirrored state plus the verified protocol composition.
//!
//! Every public operation's contract states the exact sequence of bus
//! operations it appends to the hardware log, and how the mirrored state
//! changes.  On a bus error the log holds a strict prefix of that sequence,
//! cut at the write that failed, and nothing more is sent.

use vstd::prelude::*;
use vstd::string::StringSliceAdditionalSpecFns;

use crate::proto::{
    aborted_at, backlight_bit, command_seq, font_bit, frame_seq, lemma_abort_shift,
    lemma_abort_witness, mode_bit, send_seq, Backlight, BusError, BusOp, Font, Interface, Mode,
    BACKLIGHT, ENABLE, SETTLE_US,
};

verus! {

/// Clear-display command byte.
pub const CMD_CLEAR: u8 = 0x01;

/// Return-home command byte.
pub const CMD_RETURN_HOME: u8 = 0x02;

/// Cursor/display shift command bytes.
pub const CMD_SHIFT_CURSOR_LEFT: u8 = 0x10;

pub const CMD_SHIFT_CURSOR_RIGHT: u8 = 0x14;

pub const CMD_SHIFT_DISPLAY_LEFT: u8 = 0x18;

pub const CMD_SHIFT_DISPLAY_RIGHT: u8 = 0x1c;

/// Entry-mode-set command base and its option bits: cursor advances after
/// each written character, display does not shift.
pub const ENTRY_MODE_SET: u8 = 0x04;

pub const ENTRY_CURSOR_LEFT: u8 = 0x02;

pub const ENTRY_SHIFT_DECREMENT: u8 = 0x00;

/// Display-control command base and its option bits.
pub const DISPLAY_CONTROL: u8 = 0x08;

pub const DISPLAY_ON: u8 = 0x04;

pub const CURSOR_ON: u8 = 0x02;

pub const CURSOR_BLINK: u8 = 0x01;

/// Function-set command base and its option bits.
pub const FUNCTION_SET: u8 = 0x20;

pub const BIT_MODE_8: u8 = 0x10;

pub const BIT_MODE_4: u8 = 0x00;

pub const TWO_LINES: u8 = 0x08;

/// DDRAM / CGRAM addressing command bases.
pub const SET_DDRAM_ADDR: u8 = 0x80;

pub const SET_CGRAM_ADDR: u8 = 0x40;

/// DDRAM base address of a display row.  The physical 16x4 layout has
/// non-contiguous row starts and needs its own table; every other supported
/// geometry uses the generic one.
pub open spec fn spec_row_offset(rows: u8, cols: u8, row: u8) -> u8 {
    if rows == 4 && cols == 16 {
        if row == 0 {
            0x00
        } else if row == 1 {
            0x40
        } else if row == 2 {
            0x10
        } else {
            0x50
        }
    } else {
        if row == 0 {
            0x00
        } else if row == 1 {
            0x40
        } else if row == 2 {
            0x14
        } else {
            0x54
        }
    }
}

/// Executable row-offset lookup.
pub fn row_offset(rows: u8, cols: u8, row: u8) -> (r: u8)
    ensures
        r == spec_row_offset(rows, cols, row),
        r <= 0x54,
{
    if rows == 4 && cols == 16 {
        if row == 0 {
            0x00
        } else if row == 1 {
            0x40
        } else if row == 2 {
            0x10
        } else {
            0x50
        }
    } else {
        if row == 0 {
            0x00
        } else if row == 1 {
            0x40
        } else if row == 2 {
            0x14
        } else {
            0x54
        }
    }
}

/// The driver's mirrored session state and construction-time parameters.
/// The hardware has no readback, so this mirror is the only record of what
/// the controller was last told; every state-changing command re-derives a
/// full composite byte from it.
pub struct Settings {
    pub address: u8,
    pub rows: u8,
    pub cols: u8,
    pub backlight_state: Backlight,
    pub cursor_on: bool,
    pub cursor_blink: bool,
    pub font_mode: Font,
}

/// The direct expander write that sets the backlight line: control lines
/// idle, only the backlight bit carried.
pub open spec fn backlight_seq(addr: u8, bl: u8) -> Seq<BusOp> {
    seq![BusOp::Write { addr, byte: bl }]
}

/// Full display-control byte: command base, display on, and the mirrored
/// cursor and blink bits.
pub open spec fn display_control_byte(s: Settings) -> u8 {
    DISPLAY_CONTROL | DISPLAY_ON | (if s.cursor_on {
        CURSOR_ON
    } else {
        0
    }) | (if s.cursor_blink {
        CURSOR_BLINK
    } else {
        0
    })
}

pub open spec fn display_control_seq(s: Settings) -> Seq<BusOp> {
    command_seq(s.address, display_control_byte(s), backlight_bit(s.backlight_state))
}

/// Full function-set byte: command base, 4-bit width, line-count bit derived
/// from the declared rows, and the mirrored font bit.
pub open spec fn function_set_byte(s: Settings) -> u8 {
    FUNCTION_SET | font_bit(s.font_mode) | (if s.rows == 1 {
        0
    } else {
        TWO_LINES
    })
}

pub open spec fn function_set_seq(s: Settings) -> Seq<BusOp> {
    command_seq(s.address, function_set_byte(s), backlight_bit(s.backlight_state))
}

pub open spec fn clear_seq(s: Settings) -> Seq<BusOp> {
    command_seq(s.address, CMD_CLEAR, backlight_bit(s.backlight_state)) + seq![
        BusOp::DelayMs { ms: 2 },
    ]
}

pub open spec fn return_home_seq(s: Settings) -> Seq<BusOp> {
    command_seq(s.address, CMD_RETURN_HOME, backlight_bit(s.backlight_state)) + seq![
        BusOp::DelayMs { ms: 2 },
    ]
}

/// DDRAM addressing command for (row, col): command base over the row's base
/// offset plus the column.
pub open spec fn set_cursor_seq(s: Settings, row: u8, col: u8) -> Seq<BusOp> {
    command_seq(
        s.address,
        SET_DDRAM_ADDR | ((spec_row_offset(s.rows, s.cols, row) + col) as u8),
        backlight_bit(s.backlight_state),
    )
}

/// The data-mode register writes for a sequence of bytes, in order.
pub open spec fn data_seq(addr: u8, bytes: Seq<u8>, bl: u8) -> Seq<BusOp>
    decreases bytes.len(),
{
    if bytes.len() == 0 {
        Seq::empty()
    } else {
        send_seq(addr, bytes[0], Mode::Data, bl) + data_seq(addr, bytes.drop_first(), bl)
    }
}

/// CGRAM upload: one addressing command for the masked glyph slot, then the
/// eight bitmap rows as data writes, relying on the controller's
/// auto-increment.
pub open spec fn create_char_seq(s: Settings, location: u8, charmap: Seq<u8>) -> Seq<BusOp> {
    command_seq(
        s.address,
        SET_CGRAM_ADDR | ((location & 0x7) << 3),
        backlight_bit(s.backlight_state),
    ) + data_seq(s.address, charmap.take(8), backlight_bit(s.backlight_state))
}

/// The power-on handshake: power-stable wait, backlight line, three 8-bit
/// probes with their waits, the 4-bit switch, then function set, display
/// control, clear, entry mode and return home.
pub open spec fn init_seq(s: Settings) -> Seq<BusOp> {
    let bl = backlight_bit(s.backlight_state);
    seq![BusOp::DelayMs { ms: 80 }] + backlight_seq(s.address, bl) + seq![BusOp::DelayMs { ms: 1 }]
        + frame_seq(s.address, FUNCTION_SET | BIT_MODE_8, bl) + seq![BusOp::DelayMs { ms: 5 }]
        + frame_seq(s.address, FUNCTION_SET | BIT_MODE_8, bl) + seq![BusOp::DelayMs { ms: 5 }]
        + frame_seq(s.address, FUNCTION_SET | BIT_MODE_8, bl) + seq![BusOp::DelayMs { ms: 5 }]
        + frame_seq(s.address, FUNCTION_SET | BIT_MODE_4, bl) + function_set_seq(s)
        + display_control_seq(s) + command_seq(s.address, CMD_CLEAR, bl) + seq![
        BusOp::DelayMs { ms: 2 },
    ] + command_seq(s.address, ENTRY_MODE_SET | ENTRY_CURSOR_LEFT | ENTRY_SHIFT_DECREMENT, bl)
        + return_home_seq(s)
}

/// Splitting the data-mode writes of `bytes` at index `i` splits the byte
/// sequence there.
pub proof fn lemma_data_seq_split(addr: u8, bytes: Seq<u8>, bl: u8, i: int)
    requires
        0 <= i <= bytes.len(),
    ensures
        data_seq(addr, bytes, bl) == data_seq(addr, bytes.take(i), bl) + data_seq(
            addr,
            bytes.skip(i),
            bl,
        ),
    decreases i,
{
    if i == 0 {
        assert(bytes.take(0) =~= Seq::<u8>::empty());
        assert(bytes.skip(0) =~= bytes);
        assert(data_seq(addr, bytes.take(0), bl) + data_seq(addr, bytes, bl) =~= data_seq(
            addr,
            bytes,
            bl,
        ));
    } else {
        let df = bytes.drop_first();
        lemma_data_seq_split(addr, df, bl, i - 1);
        assert(df.take(i - 1) =~= bytes.take(i).drop_first());
        assert(df.skip(i - 1) =~= bytes.skip(i));
        assert(bytes.take(i)[0] == bytes[0]);
        assert(bytes.take(i).len() == i);
        assert(data_seq(addr, bytes, bl) =~= data_seq(addr, bytes.take(i), bl) + data_seq(
            addr,
            bytes.skip(i),
            bl,
        ));
    }
}

/// One step of the data-mode writes: the whole sequence is what was already
/// delivered, the register write for byte `i`, and the writes of the rest;
/// and extending the delivered prefix appends exactly that register write.
pub proof fn lemma_data_seq_step(addr: u8, bytes: Seq<u8>, bl: u8, i: int)
    requires
        0 <= i < bytes.len(),
    ensures
        data_seq(addr, bytes, bl) == data_seq(addr, bytes.take(i), bl) + send_seq(
            addr,
            bytes[i],
            Mode::Data,
            bl,
        ) + data_seq(addr, bytes.skip(i + 1), bl),
        data_seq(addr, bytes.take(i + 1), bl) == data_seq(addr, bytes.take(i), bl) + send_seq(
            addr,
            bytes[i],
            Mode::Data,
            bl,
        ),
{
    lemma_data_seq_split(addr, bytes, bl, i);
    let tl = bytes.skip(i);
    assert(tl[0] == bytes[i]);
    assert(tl.drop_first() =~= bytes.skip(i + 1));
    assert(data_seq(addr, bytes, bl) =~= data_seq(addr, bytes.take(i), bl) + send_seq(
        addr,
        bytes[i],
        Mode::Data,
        bl,
    ) + data_seq(addr, bytes.skip(i + 1), bl));
    let t1 = bytes.take(i + 1);
    lemma_data_seq_split(addr, t1, bl, i);
    assert(t1.take(i) =~= bytes.take(i));
    let single = t1.skip(i);
    assert(single.len() == 1);
    assert(single[0] == bytes[i]);
    assert(single.drop_first() =~= Seq::<u8>::empty());
    assert(data_seq(addr, Seq::<u8>::empty(), bl) =~= Seq::<BusOp>::empty());
    assert(data_seq(addr, single, bl) == send_seq(addr, single[0], Mode::Data, bl) + data_seq(
        addr,
        single.drop_first(),
        bl,
    ));
    assert(data_seq(addr, single, bl) =~= send_seq(addr, bytes[i], Mode::Data, bl));
    assert(data_seq(addr, bytes.take(i + 1), bl) =~= data_seq(addr, bytes.take(i), bl) + send_seq(
        addr,
        bytes[i],
        Mode::Data,
        bl,
    ));
}

/// The display driver.  Owns the hardware capability and the mirrored state.
pub struct Lcd<H: Interface> {
    pub hw: H,
    pub address: u8,
    pub rows: u8,
    pub cols: u8,
    pub backlight_state: Backlight,
    pub cursor_on: bool,
    pub cursor_blink: bool,
    pub font_mode: Font,
}

impl<H: Interface> Lcd<H> {
    /// The mirrored state, as one value.
    pub open spec fn settings(self) -> Settings {
        Settings {
            address: self.address,
            rows: self.rows,
            cols: self.cols,
            backlight_state: self.backlight_state,
            cursor_on: self.cursor_on,
            cursor_blink: self.cursor_blink,
            font_mode: self.font_mode,
        }
    }

    /// The live backlight bit, restated in every raw write.
    pub open spec fn bl(self) -> u8 {
        backlight_bit(self.backlight_state)
    }

    /// Declared geometry is valid: 1 to 4 rows, and no more columns than the
    /// 40 DDRAM cells a row can hold.
    pub open spec fn wf(self) -> bool {
        &&& 1 <= self.rows <= 4
        &&& 1 <= self.cols <= 40
    }

    /// Deliver one nibble (already OR'd with register-select bits) to the
    /// controller: write with enable low, enable high, enable low again, then
    /// block for the settle time.  The controller latches on the falling
    /// enable edge.
    pub fn write4bits(&mut self, data: u8) -> (r: Result<(), BusError>)
        ensures
            final(self).settings() == old(self).settings(),
            r is Ok ==> final(self).hw.ops() == old(self).hw.ops() + frame_seq(
                old(self).address,
                data,
                old(self).bl(),
            ),
            r is Err ==> aborted_at(
                old(self).hw.ops(),
                final(self).hw.ops(),
                frame_seq(old(self).address, data, old(self).bl()),
            ),
    {
        let ghost ops0 = self.hw.ops();
        let ghost frame = frame_seq(self.address, data, self.bl());
        let bl = self.backlight_state.bit();
        match self.hw.write_byte(self.address, data | bl) {
            Ok(()) => {},
            Err(e) => {
                proof {
                    assert(self.hw.ops() =~= ops0 + frame.take(0));
                    lemma_abort_witness(ops0, self.hw.ops(), frame, 0);
                }
                return Err(e);
            },
        }
        proof {
            assert(self.hw.ops() =~= ops0 + frame.take(1));
        }
        match self.hw.write_byte(self.address, data | ENABLE | bl) {
            Ok(()) => {},
            Err(e) => {
                proof {
                    lemma_abort_witness(ops0, self.hw.ops(), frame, 1);
                }
                return Err(e);
            },
        }
        proof {
            assert(self.hw.ops() =~= ops0 + frame.take(2));
        }
        match self.hw.write_byte(self.address, bl) {
            Ok(()) => {},
            Err(e) => {
                proof {
                    lemma_abort_witness(ops0, self.hw.ops(), frame, 2);
                }
                return Err(e);
            },
        }
        proof {
            assert(self.hw.ops() =~= ops0 + frame.take(3));
        }
        self.hw.delay_us(SETTLE_US);
        proof {
            assert(self.hw.ops() =~= ops0 + frame);
        }
        Ok(())
    }

    /// One 8-bit register write, split into two nibble transactions: the high
    /// nibble first, then the low nibble shifted into the data lines, both
    /// carrying the same register-select bit.
    pub fn send(&mut self, data: u8, mode: Mode) -> (r: Result<(), BusError>)
        ensures
            final(self).settings() == old(self).settings(),
            r is Ok ==> final(self).hw.ops() == old(self).hw.ops() + send_seq(
                old(self).address,
                data,
                mode,
                old(self).bl(),
            ),
            r is Err ==> aborted_at(
                old(self).hw.ops(),
                final(self).hw.ops(),
                send_seq(old(self).address, data, mode, old(self).bl()),
            ),
    {
        let ghost ops0 = self.hw.ops();
        let ghost fh = frame_seq(self.address, (data & 0xf0) | mode_bit(mode), self.bl());
        let ghost fl = frame_seq(self.address, ((data << 4) & 0xf0) | mode_bit(mode), self.bl());
        let ghost full = send_seq(self.address, data, mode, self.bl());
        let high_bits: u8 = data & 0xf0;
        let low_bits: u8 = (data << 4) & 0xf0;
        let mb = mode.bit();
        match self.write4bits(high_bits | mb) {
            Ok(()) => {},
            Err(e) => {
                proof {
                    assert(ops0 =~= ops0 + Seq::<BusOp>::empty());
                    assert(full =~= Seq::<BusOp>::empty() + fh + fl);
                    lemma_abort_shift(
                        ops0,
                        ops0,
                        self.hw.ops(),
                        Seq::<BusOp>::empty(),
                        fh,
                        fl,
                        full,
                    );
                }
                return Err(e);
            },
        }
        match self.write4bits(low_bits | mb) {
            Ok(()) => {},
            Err(e) => {
                proof {
                    assert(full =~= fh + fl + Seq::<BusOp>::empty());
                    lemma_abort_shift(
                        ops0,
                        ops0 + fh,
                        self.hw.ops(),
                        fh,
                        fl,
                        Seq::<BusOp>::empty(),
                        full,
                    );
                }
                return Err(e);
            },
        }
        proof {
            assert(self.hw.ops() =~= ops0 + full);
        }
        Ok(())
    }

    /// A command-mode register write.
    fn command(&mut self, data: u8) -> (r: Result<(), BusError>)
        ensures
            final(self).settings() == old(self).settings(),
            r is Ok ==> final(self).hw.ops() == old(self).hw.ops() + command_seq(
                old(self).address,
                data,
                old(self).bl(),
            ),
            r is Err ==> aborted_at(
                old(self).hw.ops(),
                final(self).hw.ops(),
                command_seq(old(self).address, data, old(self).bl()),
            ),
    {
        self.send(data, Mode::Cmd)
    }

    /// Set the backlight line with one direct expander write.  This is the
    /// one operation that bypasses nibble framing: it only touches the
    /// expander's static output bits, never controller data.
    pub fn backlight(&mut self, backlight: Backlight) -> (r: Result<(), BusError>)
        ensures
            final(self).settings() == (Settings {
                backlight_state: backlight,
                ..old(self).settings()
            }),
            r is Ok ==> final(self).hw.ops() == old(self).hw.ops() + backlight_seq(
                old(self).address,
                backlight_bit(backlight),
            ),
            r is Err ==> final(self).hw.ops() == old(self).hw.ops(),
    {
        let ghost ops0 = self.hw.ops();
        self.backlight_state = backlight;
        let bl = self.backlight_state.bit();
        let r = self.hw.write_byte(self.address, bl);
        proof {
            if r is Ok {
                assert(self.hw.ops() =~= ops0 + backlight_seq(self.address, bl));
            }
        }
        r
    }

    /// Clear the display, then wait the extra settle time the clear command
    /// needs.
    pub fn clear(&mut self) -> (r: Result<(), BusError>)
        ensures
            final(self).settings() == old(self).settings(),
            r is Ok ==> final(self).hw.ops() == old(self).hw.ops() + clear_seq(
                old(self).settings(),
            ),
            r is Err ==> aborted_at(
                old(self).hw.ops(),
                final(self).hw.ops(),
                clear_seq(old(self).settings()),
            ),
    {
        let ghost ops0 = self.hw.ops();
        let ghost cs = command_seq(self.address, CMD_CLEAR, self.bl());
        let ghost tail = seq![BusOp::DelayMs { ms: 2 }];
        let ghost full = clear_seq(self.settings());
        match self.command(CMD_CLEAR) {
            Ok(()) => {},
            Err(e) => {
                proof {
                    assert(ops0 =~= ops0 + Seq::<BusOp>::empty());
                    assert(full =~= Seq::<BusOp>::empty() + cs + tail);
                    lemma_abort_shift(
                        ops0,
                        ops0,
                        self.hw.ops(),
                        Seq::<BusOp>::empty(),
                        cs,
                        tail,
                        full,
                    );
                }
                return Err(e);
            },
        }
        self.hw.delay_ms(2);
        proof {
            assert(self.hw.ops() =~= ops0 + full);
        }
        Ok(())
    }

    /// Return the cursor to the upper left corner, then wait the extra settle
    /// time.
    pub fn return_home(&mut self) -> (r: Result<(), BusError>)
        ensures
            final(self).settings() == old(self).settings(),
            r is Ok ==> final(self).hw.ops() == old(self).hw.ops() + return_home_seq(
                old(self).settings(),
            ),
            r is Err ==> aborted_at(
                old(self).hw.ops(),
                final(self).hw.ops(),
                return_home_seq(old(self).settings()),
            ),
    {
        let ghost ops0 = self.hw.ops();
        let ghost cs = command_seq(self.address, CMD_RETURN_HOME, self.bl());
        let ghost tail = seq![BusOp::DelayMs { ms: 2 }];
        let ghost full = return_home_seq(self.settings());
        match self.command(CMD_RETURN_HOME) {
            Ok(()) => {},
            Err(e) => {
                proof {
                    assert(ops0 =~= ops0 + Seq::<BusOp>::empty());
                    assert(full =~= Seq::<BusOp>::empty() + cs + tail);
                    lemma_abort_shift(
                        ops0,
                        ops0,
                        self.hw.ops(),
                        Seq::<BusOp>::empty(),
                        cs,
                        tail,
                        full,
                    );
                }
                return Err(e);
            },
        }
        self.hw.delay_ms(2);
        proof {
            assert(self.hw.ops() =~= ops0 + full);
        }
        Ok(())
    }

    /// Move the cursor to (row, col), both zero-based, by addressing DDRAM at
    /// the row's base offset plus the column.
    pub fn set_cursor(&mut self, row: u8, col: u8) -> (r: Result<(), BusError>)
        requires
            old(self).wf(),
            row < old(self).rows,
            col < old(self).cols,
        ensures
            final(self).settings() == old(self).settings(),
            r is Ok ==> final(self).hw.ops() == old(self).hw.ops() + set_cursor_seq(
                old(self).settings(),
                row,
                col,
            ),
            r is Err ==> aborted_at(
                old(self).hw.ops(),
                final(self).hw.ops(),
                set_cursor_seq(old(self).settings(), row, col),
            ),
    {
        let offset = row_offset(self.rows, self.cols, row);
        let shift: u8 = col + offset;
        proof {
            assert(shift == (spec_row_offset(self.rows, self.cols, row) + col) as u8);
        }
        self.command(SET_DDRAM_ADDR | shift)
    }

    /// Re-derive the full display-control byte from the mirrored state and
    /// send it.  Partial updates are impossible: the command encodes all bits
    /// at once.
    fn update_display_control(&mut self) -> (r: Result<(), BusError>)
        ensures
            final(self).settings() == old(self).settings(),
            r is Ok ==> final(self).hw.ops() == old(self).hw.ops() + display_control_seq(
                old(self).settings(),
            ),
            r is Err ==> aborted_at(
                old(self).hw.ops(),
                final(self).hw.ops(),
                display_control_seq(old(self).settings()),
            ),
    {
        let cursor_bit: u8 = if self.cursor_on {
            CURSOR_ON
        } else {
            0
        };
        let blink_bit: u8 = if self.cursor_blink {
            CURSOR_BLINK
        } else {
            0
        };
        self.command(DISPLAY_CONTROL | DISPLAY_ON | cursor_bit | blink_bit)
    }

    /// Re-derive the full function-set byte (4-bit width, line count from the
    /// declared rows, mirrored font) and send it.
    fn update_function_set(&mut self) -> (r: Result<(), BusError>)
        ensures
            final(self).settings() == old(self).settings(),
            r is Ok ==> final(self).hw.ops() == old(self).hw.ops() + function_set_seq(
                old(self).settings(),
            ),
            r is Err ==> aborted_at(
                old(self).hw.ops(),
                final(self).hw.ops(),
                function_set_seq(old(self).settings()),
            ),
    {
        let lines: u8 = if self.rows == 1 {
            0
        } else {
            TWO_LINES
        };
        let font = self.font_mode.bit();
        self.command(FUNCTION_SET | font | lines)
    }

    /// Set cursor visibility, then resend the whole display-control byte.
    pub fn cursor_on(&mut self, on: bool) -> (r: Result<(), BusError>)
        ensures
            final(self).settings() == (Settings { cursor_on: on, ..old(self).settings() }),
            r is Ok ==> final(self).hw.ops() == old(self).hw.ops() + display_control_seq(
                final(self).settings(),
            ),
            r is Err ==> aborted_at(
                old(self).hw.ops(),
                final(self).hw.ops(),
                display_control_seq(final(self).settings()),
            ),
    {
        self.cursor_on = on;
        self.update_display_control()
    }

    /// Set cursor blink, then resend the whole display-control byte.
    pub fn cursor_blink(&mut self, blink: bool) -> (r: Result<(), BusError>)
        ensures
            final(self).settings() == (Settings { cursor_blink: blink, ..old(self).settings() }),
            r is Ok ==> final(self).hw.ops() == old(self).hw.ops() + display_control_seq(
                final(self).settings(),
            ),
            r is Err ==> aborted_at(
                old(self).hw.ops(),
                final(self).hw.ops(),
                display_control_seq(final(self).settings()),
            ),
    {
        self.cursor_blink = blink;
        self.update_display_control()
    }

    /// Set the font selector, then resend the whole function-set byte.
    pub fn font_mode(&mut self, mode: Font) -> (r: Result<(), BusError>)
        ensures
            final(self).settings() == (Settings { font_mode: mode, ..old(self).settings() }),
            r is Ok ==> final(self).hw.ops() == old(self).hw.ops() + function_set_seq(
                final(self).settings(),
            ),
            r is Err ==> aborted_at(
                old(self).hw.ops(),
                final(self).hw.ops(),
                function_set_seq(final(self).settings()),
            ),
    {
        self.font_mode = mode;
        self.update_function_set()
    }

    /// Shift the whole display one position to the left.
    pub fn scroll_display_left(&mut self) -> (r: Result<(), BusError>)
        ensures
            final(self).settings() == old(self).settings(),
            r is Ok ==> final(self).hw.ops() == old(self).hw.ops() + command_seq(
                old(self).address,
                CMD_SHIFT_DISPLAY_LEFT,
                old(self).bl(),
            ),
            r is Err ==> aborted_at(
                old(self).hw.ops(),
                final(self).hw.ops(),
                command_seq(old(self).address, CMD_SHIFT_DISPLAY_LEFT, old(self).bl()),
            ),
    {
        self.command(CMD_SHIFT_DISPLAY_LEFT)
    }

    /// Shift the whole display one position to the right.
    pub fn scroll_display_right(&mut self) -> (r: Result<(), BusError>)
        ensures
            final(self).settings() == old(self).settings(),
            r is Ok ==> final(self).hw.ops() == old(self).hw.ops() + command_seq(
                old(self).address,
                CMD_SHIFT_DISPLAY_RIGHT,
                old(self).bl(),
            ),
            r is Err ==> aborted_at(
                old(self).hw.ops(),
                final(self).hw.ops(),
                command_seq(old(self).address, CMD_SHIFT_DISPLAY_RIGHT, old(self).bl()),
            ),
    {
        self.command(CMD_SHIFT_DISPLAY_RIGHT)
    }

    /// Move the cursor one position to the left.
    pub fn scroll_cursor_left(&mut self) -> (r: Result<(), BusError>)
        ensures
            final(self).settings() == old(self).settings(),
            r is Ok ==> final(self).hw.ops() == old(self).hw.ops() + command_seq(
                old(self).address,
                CMD_SHIFT_CURSOR_LEFT,
                old(self).bl(),
            ),
            r is Err ==> aborted_at(
                old(self).hw.ops(),
                final(self).hw.ops(),
                command_seq(old(self).address, CMD_SHIFT_CURSOR_LEFT, old(self).bl()),
            ),
    {
        self.command(CMD_SHIFT_CURSOR_LEFT)
    }

    /// Move the cursor one position to the right.
    pub fn scroll_cursor_right(&mut self) -> (r: Result<(), BusError>)
        ensures
            final(self).settings() == old(self).settings(),
            r is Ok ==> final(self).hw.ops() == old(self).hw.ops() + command_seq(
                old(self).address,
                CMD_SHIFT_CURSOR_RIGHT,
                old(self).bl(),
            ),
            r is Err ==> aborted_at(
                old(self).hw.ops(),
                final(self).hw.ops(),
                command_seq(old(self).address, CMD_SHIFT_CURSOR_RIGHT, old(self).bl()),
            ),
    {
        self.command(CMD_SHIFT_CURSOR_RIGHT)
    }

    /// Create a driver over the given hardware with the declared geometry and
    /// default state: backlight on, cursor hidden, no blink, 5x8 font,
    /// address 0.  The row count must be 1 to 4 (there are no row offsets for
    /// more) and the column count at most the 40 DDRAM cells of a row.
    pub fn new(hw: H, rows: u8, cols: u8) -> (r: Lcd<H>)
        requires
            1 <= rows <= 4,
            1 <= cols <= 40,
        ensures
            r.hw == hw,
            r.settings() == (Settings {
                address: 0,
                rows,
                cols,
                backlight_state: Backlight::On,
                cursor_on: false,
                cursor_blink: false,
                font_mode: Font::Font5x8,
            }),
            r.wf(),
    {
        Lcd {
            hw,
            address: 0,
            rows,
            cols,
            backlight_state: Backlight::On,
            cursor_on: false,
            cursor_blink: false,
            font_mode: Font::Font5x8,
        }
    }

    /// Set the bus address of the expander.
    pub fn with_address(self, address: u8) -> (r: Self)
        ensures
            r.hw == self.hw,
            r.settings() == (Settings { address, ..self.settings() }),
    {
        Lcd { address, ..self }
    }

    /// Set the initial cursor visibility applied by `init`.
    pub fn with_cursor_on(self, on: bool) -> (r: Self)
        ensures
            r.hw == self.hw,
            r.settings() == (Settings { cursor_on: on, ..self.settings() }),
    {
        Lcd { cursor_on: on, ..self }
    }

    /// Set the initial cursor blink applied by `init`.
    pub fn with_cursor_blink(self, blink: bool) -> (r: Self)
        ensures
            r.hw == self.hw,
            r.settings() == (Settings { cursor_blink: blink, ..self.settings() }),
    {
        Lcd { cursor_blink: blink, ..self }
    }

    /// The power-on handshake.  The controller may have power-cycled into an
    /// unknown bit width, so the 8-bit function set is asserted three times,
    /// with the mandated waits, before switching to 4-bit mode and applying
    /// the mirrored function-set and display-control state.  Any bus error
    /// aborts at once; the mirror is left as it was and the hardware must be
    /// re-initialized before reuse.
    #[verifier::rlimit(100)]
    pub fn init(&mut self) -> (r: Result<(), BusError>)
        ensures
            final(self).settings() == old(self).settings(),
            r is Ok ==> final(self).hw.ops() == old(self).hw.ops() + init_seq(
                old(self).settings(),
            ),
            r is Err ==> aborted_at(
                old(self).hw.ops(),
                final(self).hw.ops(),
                init_seq(old(self).settings()),
            ),
    {
        let ghost s = self.settings();
        let ghost bl = self.bl();
        let ghost a = self.address;
        let ghost ops0 = self.hw.ops();
        let ghost p1 = seq![BusOp::DelayMs { ms: 80u32 }];
        let ghost p2 = backlight_seq(a, bl);
        let ghost p3 = seq![BusOp::DelayMs { ms: 1u32 }];
        let ghost probe = frame_seq(a, FUNCTION_SET | BIT_MODE_8, bl);
        let ghost pw = seq![BusOp::DelayMs { ms: 5u32 }];
        let ghost p10 = frame_seq(a, FUNCTION_SET | BIT_MODE_4, bl);
        let ghost p11 = function_set_seq(s);
        let ghost p12 = display_control_seq(s);
        let ghost p13 = command_seq(a, CMD_CLEAR, bl);
        let ghost p14 = seq![BusOp::DelayMs { ms: 2u32 }];
        let ghost p15 = command_seq(
            a,
            ENTRY_MODE_SET | ENTRY_CURSOR_LEFT | ENTRY_SHIFT_DECREMENT,
            bl,
        );
        let ghost p16 = return_home_seq(s);
        let ghost full = init_seq(s);
        proof {
            assert(full == p1 + p2 + p3 + probe + pw + probe + pw + probe + pw + p10 + p11 + p12
                + p13 + p14 + p15 + p16);
        }
        // Initial wait for the controller to come up after power on.
        self.hw.delay_ms(80);
        let ghost d1 = p1;
        proof {
            assert(self.hw.ops() =~= ops0 + d1);
        }
        let b = self.backlight_state;
        match self.backlight(b) {
            Ok(()) => {},
            Err(e) => {
                proof {
                    assert(self.hw.ops() =~= (ops0 + d1) + p2.take(0));
                    lemma_abort_witness(ops0 + d1, self.hw.ops(), p2, 0);
                    assert(full =~= d1 + p2 + (p3 + probe + pw + probe + pw + probe + pw + p10
                        + p11 + p12 + p13 + p14 + p15 + p16));
                    lemma_abort_shift(
                        ops0,
                        ops0 + d1,
                        self.hw.ops(),
                        d1,
                        p2,
                        p3 + probe + pw + probe + pw + probe + pw + p10 + p11 + p12 + p13 + p14
                            + p15 + p16,
                        full,
                    );
                }
                return Err(e);
            },
        }
        let ghost d2 = d1 + p2;
        proof {
            assert(self.hw.ops() =~= ops0 + d2);
        }
        self.hw.delay_ms(1);
        let ghost d3 = d2 + p3;
        proof {
            assert(self.hw.ops() =~= ops0 + d3);
        }
        // Probe with the 8-bit function set three times: only repeated
        // assertion converges the controller from any power-on state.
        match self.write4bits(FUNCTION_SET | BIT_MODE_8) {
            Ok(()) => {},
            Err(e) => {
                proof {
                    assert(full =~= d3 + probe + (pw + probe + pw + probe + pw + p10 + p11 + p12
                        + p13 + p14 + p15 + p16));
                    lemma_abort_shift(
                        ops0,
                        ops0 + d3,
                        self.hw.ops(),
                        d3,
                        probe,
                        pw + probe + pw + probe + pw + p10 + p11 + p12 + p13 + p14 + p15 + p16,
                        full,
                    );
                }
                return Err(e);
            },
        }
        let ghost d4 = d3 + probe;
        proof {
            assert(self.hw.ops() =~= ops0 + d4);
        }
        self.hw.delay_ms(5);
        let ghost d5 = d4 + pw;
        proof {
            assert(self.hw.ops() =~= ops0 + d5);
        }
        match self.write4bits(FUNCTION_SET | BIT_MODE_8) {
            Ok(()) => {},
            Err(e) => {
                proof {
                    assert(full =~= d5 + probe + (pw + probe + pw + p10 + p11 + p12 + p13 + p14
                        + p15 + p16));
                    lemma_abort_shift(
                        ops0,
                        ops0 + d5,
                        self.hw.ops(),
                        d5,
                        probe,
                        pw + probe + pw + p10 + p11 + p12 + p13 + p14 + p15 + p16,
                        full,
                    );
                }
                return Err(e);
            },
        }
        let ghost d6 = d5 + probe;
        proof {
            assert(self.hw.ops() =~= ops0 + d6);
        }
        self.hw.delay_ms(5);
        let ghost d7 = d6 + pw;
        proof {
            assert(self.hw.ops() =~= ops0 + d7);
        }
        match self.write4bits(FUNCTION_SET | BIT_MODE_8) {
            Ok(()) => {},
            Err(e) => {
                proof {
                    assert(full =~= d7 + probe + (pw + p10 + p11 + p12 + p13 + p14 + p15 + p16));
                    lemma_abort_shift(
                        ops0,
                        ops0 + d7,
                        self.hw.ops(),
                        d7,
                        probe,
                        pw + p10 + p11 + p12 + p13 + p14 + p15 + p16,
                        full,
                    );
                }
                return Err(e);
            },
        }
        let ghost d8 = d7 + probe;
        proof {
            assert(self.hw.ops() =~= ops0 + d8);
        }
        self.hw.delay_ms(5);
        let ghost d9 = d8 + pw;
        proof {
            assert(self.hw.ops() =~= ops0 + d9);
        }
        // Switch to 4-bit mode.
        match self.write4bits(FUNCTION_SET | BIT_MODE_4) {
            Ok(()) => {},
            Err(e) => {
                proof {
                    assert(full =~= d9 + p10 + (p11 + p12 + p13 + p14 + p15 + p16));
                    lemma_abort_shift(
                        ops0,
                        ops0 + d9,
                        self.hw.ops(),
                        d9,
                        p10,
                        p11 + p12 + p13 + p14 + p15 + p16,
                        full,
                    );
                }
                return Err(e);
            },
        }
        let ghost d10 = d9 + p10;
        proof {
            assert(self.hw.ops() =~= ops0 + d10);
        }
        match self.update_function_set() {
            Ok(()) => {},
            Err(e) => {
                proof {
                    assert(full =~= d10 + p11 + (p12 + p13 + p14 + p15 + p16));
                    lemma_abort_shift(
                        ops0,
                        ops0 + d10,
                        self.hw.ops(),
                        d10,
                        p11,
                        p12 + p13 + p14 + p15 + p16,
                        full,
                    );
                }
                return Err(e);
            },
        }
        let ghost d11 = d10 + p11;
        proof {
            assert(self.hw.ops() =~= ops0 + d11);
        }
        match self.update_display_control() {
            Ok(()) => {},
            Err(e) => {
                proof {
                    assert(full =~= d11 + p12 + (p13 + p14 + p15 + p16));
                    lemma_abort_shift(
                        ops0,
                        ops0 + d11,
                        self.hw.ops(),
                        d11,
                        p12,
                        p13 + p14 + p15 + p16,
                        full,
                    );
                }
                return Err(e);
            },
        }
        let ghost d12 = d11 + p12;
        proof {
            assert(self.hw.ops() =~= ops0 + d12);
        }
        match self.command(CMD_CLEAR) {
            Ok(()) => {},
            Err(e) => {
                proof {
                    assert(full =~= d12 + p13 + (p14 + p15 + p16));
                    lemma_abort_shift(
                        ops0,
                        ops0 + d12,
                        self.hw.ops(),
                        d12,
                        p13,
                        p14 + p15 + p16,
                        full,
                    );
                }
                return Err(e);
            },
        }
        let ghost d13 = d12 + p13;
        proof {
            assert(self.hw.ops() =~= ops0 + d13);
        }
        self.hw.delay_ms(2);
        let ghost d14 = d13 + p14;
        proof {
            assert(self.hw.ops() =~= ops0 + d14);
        }
        // Entry mode: cursor advances after each written character, display
        // does not shift.
        match self.command(ENTRY_MODE_SET | ENTRY_CURSOR_LEFT | ENTRY_SHIFT_DECREMENT) {
            Ok(()) => {},
            Err(e) => {
                proof {
                    assert(full =~= d14 + p15 + p16);
                    lemma_abort_shift(ops0, ops0 + d14, self.hw.ops(), d14, p15, p16, full);
                }
                return Err(e);
            },
        }
        let ghost d15 = d14 + p15;
        proof {
            assert(self.hw.ops() =~= ops0 + d15);
        }
        match self.return_home() {
            Ok(()) => {},
            Err(e) => {
                proof {
                    assert(full =~= d15 + p16 + Seq::<BusOp>::empty());
                    lemma_abort_shift(
                        ops0,
                        ops0 + d15,
                        self.hw.ops(),
                        d15,
                        p16,
                        Seq::<BusOp>::empty(),
                        full,
                    );
                }
                return Err(e);
            },
        }
        proof {
            assert(self.hw.ops() =~= ops0 + full);
        }
        Ok(())
    }

    /// Write the characters of `data` to the display, one data-mode register
    /// write per character.  Only single-byte characters are supported, so
    /// the text must be ASCII.
    #[verifier::loop_isolation(false)]
    pub fn write_str(&mut self, data: &str) -> (r: Result<(), BusError>)
        requires
            data.is_ascii(),
        ensures
            final(self).settings() == old(self).settings(),
            r is Ok ==> final(self).hw.ops() == old(self).hw.ops() + data_seq(
                old(self).address,
                data.spec_bytes(),
                old(self).bl(),
            ),
            r is Err ==> aborted_at(
                old(self).hw.ops(),
                final(self).hw.ops(),
                data_seq(old(self).address, data.spec_bytes(), old(self).bl()),
            ),
    {
        let ghost a = self.address;
        let ghost bl = self.bl();
        let ghost ops0 = self.hw.ops();
        let ghost bs = data.spec_bytes();
        let ghost full = data_seq(a, bs, bl);
        let bytes = data.as_bytes();
        let n = bytes.len();
        let mut i: usize = 0;
        while i < n
            invariant
                n == bs.len(),
                bytes@ == bs,
                i <= n,
                self.address == a,
                self.bl() == bl,
                self.settings() == old(self).settings(),
                self.hw.ops() == ops0 + data_seq(a, bs.take(i as int), bl),
                ops0 == old(self).hw.ops(),
                full == data_seq(a, bs, bl),
            decreases n - i,
        {
            let c = bytes[i];
            let ghost done = data_seq(a, bs.take(i as int), bl);
            let ghost sub = send_seq(a, bs[i as int], Mode::Data, bl);
            match self.send(c, Mode::Data) {
                Ok(()) => {},
                Err(e) => {
                    proof {
                        lemma_data_seq_step(a, bs, bl, i as int);
                        assert(full =~= done + sub + data_seq(a, bs.skip(i as int + 1), bl));
                        lemma_abort_shift(
                            ops0,
                            ops0 + done,
                            self.hw.ops(),
                            done,
                            sub,
                            data_seq(a, bs.skip(i as int + 1), bl),
                            full,
                        );
                    }
                    return Err(e);
                },
            }
            proof {
                lemma_data_seq_step(a, bs, bl, i as int);
                assert(self.hw.ops() =~= ops0 + data_seq(a, bs.take(i as int + 1), bl));
            }
            i += 1;
        }
        proof {
            assert(bs.take(n as int) =~= bs);
        }
        Ok(())
    }

    /// Store an 8-byte glyph bitmap in one of the eight CGRAM slots.  The
    /// slot index is masked to 3 bits; the bitmap's first eight bytes are
    /// sent as data writes after one CGRAM addressing command, relying on the
    /// controller's auto-increment.  An existing glyph in the slot is
    /// overwritten.
    #[verifier::loop_isolation(false)]
    pub fn create_char(&mut self, location: u8, charmap: &[u8]) -> (r: Result<(), BusError>)
        requires
            charmap@.len() >= 8,
        ensures
            final(self).settings() == old(self).settings(),
            r is Ok ==> final(self).hw.ops() == old(self).hw.ops() + create_char_seq(
                old(self).settings(),
                location,
                charmap@,
            ),
            r is Err ==> aborted_at(
                old(self).hw.ops(),
                final(self).hw.ops(),
                create_char_seq(old(self).settings(), location, charmap@),
            ),
    {
        let ghost a = self.address;
        let ghost bl = self.bl();
        let ghost ops0 = self.hw.ops();
        let ghost bs = charmap@.take(8);
        let ghost cmdp = command_seq(a, SET_CGRAM_ADDR | ((location & 0x7) << 3), bl);
        let ghost dat = data_seq(a, bs, bl);
        let ghost full = create_char_seq(self.settings(), location, charmap@);
        proof {
            assert(full == cmdp + dat);
        }
        let masked = location & 0x7;
        match self.command(SET_CGRAM_ADDR | (masked << 3)) {
            Ok(()) => {},
            Err(e) => {
                proof {
                    assert(ops0 =~= ops0 + Seq::<BusOp>::empty());
                    assert(full =~= Seq::<BusOp>::empty() + cmdp + dat);
                    lemma_abort_shift(
                        ops0,
                        ops0,
                        self.hw.ops(),
                        Seq::<BusOp>::empty(),
                        cmdp,
                        dat,
                        full,
                    );
                }
                return Err(e);
            },
        }
        let mut i: usize = 0;
        while i < 8
            invariant
                charmap@.len() >= 8,
                bs == charmap@.take(8),
                bs.len() == 8,
                i <= 8,
                self.address == a,
                self.bl() == bl,
                self.settings() == old(self).settings(),
                self.hw.ops() == ops0 + cmdp + data_seq(a, bs.take(i as int), bl),
                ops0 == old(self).hw.ops(),
                full == cmdp + dat,
                dat == data_seq(a, bs, bl),
                cmdp == command_seq(a, SET_CGRAM_ADDR | ((location & 0x7) << 3), bl),
            decreases 8 - i,
        {
            let c = charmap[i];
            proof {
                assert(bs[i as int] == charmap@[i as int]);
            }
            let ghost done = cmdp + data_seq(a, bs.take(i as int), bl);
            let ghost sub = send_seq(a, bs[i as int], Mode::Data, bl);
            match self.send(c, Mode::Data) {
                Ok(()) => {},
                Err(e) => {
                    proof {
                        lemma_data_seq_step(a, bs, bl, i as int);
                        assert(full =~= done + sub + data_seq(a, bs.skip(i as int + 1), bl));
                        assert(ops0 + cmdp + data_seq(a, bs.take(i as int), bl) =~= ops0 + done);
                        lemma_abort_shift(
                            ops0,
                            ops0 + done,
                            self.hw.ops(),
                            done,
                            sub,
                            data_seq(a, bs.skip(i as int + 1), bl),
                            full,
                        );
                    }
                    return Err(e);
                },
            }
            proof {
                lemma_data_seq_step(a, bs, bl, i as int);
                assert(self.hw.ops() =~= ops0 + cmdp + data_seq(a, bs.take(i as int + 1), bl));
            }
            i += 1;
        }
        proof {
            assert(bs.take(8) =~= bs);
            assert(self.hw.ops() =~= ops0 + full);
        }
        Ok(())
    }
}

/// The milliseconds of the blocking millisecond delays in a trace, in order.
pub open spec fn delay_ms_trace(ops: Seq<BusOp>) -> Seq<u32>
    decreases ops.len(),
{
    if ops.len() == 0 {
        Seq::empty()
    } else {
        (match ops[0] {
            BusOp::DelayMs { ms } => seq![ms],
            _ => Seq::empty(),
        }) + delay_ms_trace(ops.drop_first())
    }
}

/// The millisecond delays of a concatenation are the delays of the parts.
pub proof fn lemma_delay_ms_trace_add(a: Seq<BusOp>, b: Seq<BusOp>)
    ensures
        delay_ms_trace(a + b) == delay_ms_trace(a) + delay_ms_trace(b),
    decreases a.len(),
{
    if a.len() == 0 {
        assert(a + b =~= b);
        assert(delay_ms_trace(a) =~= Seq::<u32>::empty());
        assert(delay_ms_trace(a) + delay_ms_trace(b) =~= delay_ms_trace(b));
    } else {
        lemma_delay_ms_trace_add(a.drop_first(), b);
        assert((a + b).len() > 0);
        assert((a + b)[0] == a[0]);
        assert((a + b).drop_first() =~= a.drop_first() + b);
        assert(delay_ms_trace(a + b) =~= delay_ms_trace(a) + delay_ms_trace(b));
    }
}

/// A nibble transaction blocks only for its microsecond settle time, never
/// in milliseconds.
pub proof fn lemma_frame_no_ms(addr: u8, payload: u8, bl: u8)
    ensures
        delay_ms_trace(frame_seq(addr, payload, bl)) == Seq::<u32>::empty(),
{
    reveal_with_fuel(delay_ms_trace, 6);
    let f = frame_seq(addr, payload, bl);
    assert(f.drop_first() =~= seq![f[1], f[2], f[3]]);
    assert(f.drop_first().drop_first() =~= seq![f[2], f[3]]);
    assert(f.drop_first().drop_first().drop_first() =~= seq![f[3]]);
    assert(f.drop_first().drop_first().drop_first().drop_first() =~= Seq::<BusOp>::empty());
    assert(delay_ms_trace(f) =~= Seq::<u32>::empty());
}

/// A register write blocks only for its two settle times, never in
/// milliseconds.
pub proof fn lemma_send_no_ms(addr: u8, data: u8, mode: Mode, bl: u8)
    ensures
        delay_ms_trace(send_seq(addr, data, mode, bl)) == Seq::<u32>::empty(),
{
    let fh = frame_seq(addr, (data & 0xf0) | mode_bit(mode), bl);
    let fl = frame_seq(addr, ((data << 4) & 0xf0) | mode_bit(mode), bl);
    lemma_frame_no_ms(addr, (data & 0xf0) | mode_bit(mode), bl);
    lemma_frame_no_ms(addr, ((data << 4) & 0xf0) | mode_bit(mode), bl);
    lemma_delay_ms_trace_add(fh, fl);
    assert(delay_ms_trace(send_seq(addr, data, mode, bl)) =~= Seq::<u32>::empty());
}

/// The millisecond delays of a single operation.
pub proof fn lemma_delay_ms_trace_single(op: BusOp)
    ensures
        delay_ms_trace(seq![op]) == (match op {
            BusOp::DelayMs { ms } => seq![ms],
            _ => Seq::<u32>::empty(),
        }),
{
    reveal_with_fuel(delay_ms_trace, 3);
    assert(seq![op].drop_first() =~= Seq::<BusOp>::empty());
    assert(delay_ms_trace(seq![op]) =~= (match op {
        BusOp::DelayMs { ms } => seq![ms],
        _ => Seq::<u32>::empty(),
    }));
}

/// The initialization handshake blocks for exactly the mandated millisecond
/// delays, in order: 80 ms after power-on, 1 ms after the backlight write,
/// 5 ms after each of the three 8-bit probes, 2 ms after clear and 2 ms
/// after return home — 100 ms in all, exclusive of the per-nibble settle
/// times.
pub proof fn lemma_init_delay_schedule(s: Settings)
    ensures
        delay_ms_trace(init_seq(s)) == seq![80u32, 1u32, 5u32, 5u32, 5u32, 2u32, 2u32],
{
    let bl = backlight_bit(s.backlight_state);
    let a = s.address;
    let p1 = seq![BusOp::DelayMs { ms: 80u32 }];
    let p2 = backlight_seq(a, bl);
    let p3 = seq![BusOp::DelayMs { ms: 1u32 }];
    let probe = frame_seq(a, FUNCTION_SET | BIT_MODE_8, bl);
    let pw = seq![BusOp::DelayMs { ms: 5u32 }];
    let p10 = frame_seq(a, FUNCTION_SET | BIT_MODE_4, bl);
    let p11 = function_set_seq(s);
    let p12 = display_control_seq(s);
    let p13 = command_seq(a, CMD_CLEAR, bl);
    let p14 = seq![BusOp::DelayMs { ms: 2u32 }];
    let p15 = command_seq(a, ENTRY_MODE_SET | ENTRY_CURSOR_LEFT | ENTRY_SHIFT_DECREMENT, bl);
    let p16 = return_home_seq(s);
    lemma_delay_ms_trace_single(BusOp::DelayMs { ms: 80u32 });
    lemma_delay_ms_trace_single(BusOp::DelayMs { ms: 1u32 });
    lemma_delay_ms_trace_single(BusOp::DelayMs { ms: 5u32 });
    lemma_delay_ms_trace_single(BusOp::DelayMs { ms: 2u32 });
    lemma_delay_ms_trace_single(BusOp::Write { addr: a, byte: bl });
    assert(p2 == seq![BusOp::Write { addr: a, byte: bl }]);
    lemma_frame_no_ms(a, FUNCTION_SET | BIT_MODE_8, bl);
    lemma_frame_no_ms(a, FUNCTION_SET | BIT_MODE_4, bl);
    lemma_send_no_ms(a, function_set_byte(s), Mode::Cmd, bl);
    lemma_send_no_ms(a, display_control_byte(s), Mode::Cmd, bl);
    lemma_send_no_ms(a, CMD_CLEAR, Mode::Cmd, bl);
    lemma_send_no_ms(a, ENTRY_MODE_SET | ENTRY_CURSOR_LEFT | ENTRY_SHIFT_DECREMENT, Mode::Cmd, bl);
    lemma_send_no_ms(a, CMD_RETURN_HOME, Mode::Cmd, bl);
    lemma_delay_ms_trace_add(command_seq(a, CMD_RETURN_HOME, bl), p14);
    assert(delay_ms_trace(p16) =~= seq![2u32]);
    let c1 = p1 + p2;
    lemma_delay_ms_trace_add(p1, p2);
    let c2 = c1 + p3;
    lemma_delay_ms_trace_add(c1, p3);
    let c3 = c2 + probe;
    lemma_delay_ms_trace_add(c2, probe);
    let c4 = c3 + pw;
    lemma_delay_ms_trace_add(c3, pw);
    let c5 = c4 + probe;
    lemma_delay_ms_trace_add(c4, probe);
    let c6 = c5 + pw;
    lemma_delay_ms_trace_add(c5, pw);
    let c7 = c6 + probe;
    lemma_delay_ms_trace_add(c6, probe);
    let c8 = c7 + pw;
    lemma_delay_ms_trace_add(c7, pw);
    let c9 = c8 + p10;
    lemma_delay_ms_trace_add(c8, p10);
    let c10 = c9 + p11;
    lemma_delay_ms_trace_add(c9, p11);
    let c11 = c10 + p12;
    lemma_delay_ms_trace_add(c10, p12);
    let c12 = c11 + p13;
    lemma_delay_ms_trace_add(c11, p13);
    let c13 = c12 + p14;
    lemma_delay_ms_trace_add(c12, p14);
    let c14 = c13 + p15;
    lemma_delay_ms_trace_add(c13, p15);
    lemma_delay_ms_trace_add(c14, p16);
    assert(init_seq(s) == c14 + p16);
    assert(delay_ms_trace(init_seq(s)) =~= seq![80u32, 1u32, 5u32, 5u32, 5u32, 2u32, 2u32]);
}

/// The cursor addressing command of `set_cursor` carries the row's base
/// DDRAM offset plus the column in its low 7 bits; for the 4-row, 16-column
/// geometry the offset comes from the non-contiguous table.
pub proof fn lemma_set_cursor_addressing(s: Settings, row: u8, col: u8)
    requires
        1 <= s.rows <= 4,
        1 <= s.cols <= 40,
        row < s.rows,
        col < s.cols,
    ensures
        set_cursor_seq(s, row, col) == command_seq(
            s.address,
            SET_DDRAM_ADDR | ((spec_row_offset(s.rows, s.cols, row) + col) as u8),
            backlight_bit(s.backlight_state),
        ),
        (SET_DDRAM_ADDR | ((spec_row_offset(s.rows, s.cols, row) + col) as u8)) & 0x7f
            == spec_row_offset(s.rows, s.cols, row) + col,
{
    let off = spec_row_offset(s.rows, s.cols, row);
    assert(off <= 0x54);
    assert((0x80u8 | ((off + col) as u8)) & 0x7fu8 == off + col) by (bit_vector)
        requires
            off <= 0x54u8 && col < 40u8,
    ;
}

/// Setting the cursor visibility is idempotent: a second identical call
/// sends the same display-control byte again and leaves the same mirrored
/// state, whatever the state was before the first call.
pub proof fn lemma_cursor_on_idempotent(s: Settings, on: bool)
    ensures
        ({
            let s1 = Settings { cursor_on: on, ..s };
            let s2 = Settings { cursor_on: on, ..s1 };
            s2 == s1 && display_control_seq(s2) == display_control_seq(s1)
        }),
{
}

/// Backlight round trip: the writes for "off" and "on" carry the same
/// expander byte except for the backlight bit, which the "on" write sets and
/// the "off" write clears.
pub proof fn lemma_backlight_round_trip(addr: u8)
    ensures
        backlight_seq(addr, backlight_bit(Backlight::On)) == seq![
            BusOp::Write { addr, byte: backlight_bit(Backlight::Off) | BACKLIGHT },
        ],
        backlight_bit(Backlight::On) & !BACKLIGHT == backlight_bit(Backlight::Off) & !BACKLIGHT,
        backlight_bit(Backlight::On) & BACKLIGHT == BACKLIGHT,
        backlight_bit(Backlight::Off) & BACKLIGHT == 0,
{
    assert(0x08u8 & !0x08u8 == 0x00u8 & !0x08u8) by (bit_vector);
    assert(0x08u8 & 0x08u8 == 0x08u8) by (bit_vector);
    assert(0x00u8 & 0x08u8 == 0u8) by (bit_vector);
    assert(0x00u8 | 0x08u8 == 0x08u8) by (bit_vector);
}

} // verus!

