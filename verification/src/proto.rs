//! Protocol model: the raw bus operations, the hardware capability trait, and
//! the specification-level transaction sequences every driver operation emits.

use vstd::prelude::*;

verus! {

/// Enable line of the expander byte (doubles as the display-on bit inside a
/// display-control command).
pub const ENABLE: u8 = 0x04;

/// Backlight line of the expander byte.
pub const BACKLIGHT: u8 = 0x08;

/// Register-select line: set for data writes, clear for commands.
pub const REGISTER_SELECT: u8 = 0x01;

/// Settle time after each nibble transaction, in microseconds.
pub const SETTLE_US: u32 = 700;

/// One raw operation against the hardware: a single-byte bus write or a
/// blocking delay.
#[derive(Clone, Copy, PartialEq, Eq, Structural, Debug)]
pub enum BusOp {
    Write { addr: u8, byte: u8 },
    DelayMs { ms: u32 },
    DelayUs { us: u32 },
}

/// A transport write failed.  Never retried: after a partial transaction the
/// controller's state is unknown, so the failure is surfaced at once.
#[derive(Clone, Copy, PartialEq, Eq, Structural, Debug)]
pub struct BusError;

/// Backlight line state, mirrored by the driver because the hardware offers
/// no readback.
#[derive(Clone, Copy, PartialEq, Eq, Structural, Debug)]
pub enum Backlight {
    Off,
    On,
}

/// Glyph height selector of the function-set command.
#[derive(Clone, Copy, PartialEq, Eq, Structural, Debug)]
pub enum Font {
    Font5x8,
    Font5x10,
}

/// Register-select mode of one 8-bit register write.
#[derive(Clone, Copy, PartialEq, Eq, Structural, Debug)]
pub enum Mode {
    Cmd,
    Data,
}

pub open spec fn backlight_bit(b: Backlight) -> u8 {
    match b {
        Backlight::Off => 0x00,
        Backlight::On => BACKLIGHT,
    }
}

pub open spec fn font_bit(f: Font) -> u8 {
    match f {
        Font::Font5x8 => 0x00,
        Font::Font5x10 => 0x04,
    }
}

pub open spec fn mode_bit(m: Mode) -> u8 {
    match m {
        Mode::Cmd => 0x00,
        Mode::Data => REGISTER_SELECT,
    }
}

impl Backlight {
    /// Expander-byte bit for this backlight state.
    pub fn bit(self) -> (r: u8)
        ensures
            r == backlight_bit(self),
    {
        match self {
            Backlight::Off => 0x00,
            Backlight::On => BACKLIGHT,
        }
    }
}

impl Font {
    /// Function-set bit for this font.
    pub fn bit(self) -> (r: u8)
        ensures
            r == font_bit(self),
    {
        match self {
            Font::Font5x8 => 0x00,
            Font::Font5x10 => 0x04,
        }
    }
}

impl Mode {
    /// Register-select bit for this mode.
    pub fn bit(self) -> (r: u8)
        ensures
            r == mode_bit(self),
    {
        match self {
            Mode::Cmd => 0x00,
            Mode::Data => REGISTER_SELECT,
        }
    }
}

/// The two capabilities the driver needs: a synchronous byte write to a fixed
/// bus address, and blocking delays.  `ops` is the ghost log of everything the
/// hardware has been asked to do, in order; every driver contract is stated as
/// an extension of this log.
pub trait Interface: Sized {
    spec fn ops(&self) -> Seq<BusOp>;

    /// Write one byte to the device at `addr`.  On failure nothing is added
    /// to the log: the byte was not delivered.
    fn write_byte(&mut self, addr: u8, byte: u8) -> (r: Result<(), BusError>)
        ensures
            r is Ok ==> final(self).ops() == old(self).ops().push(BusOp::Write { addr, byte }),
            r is Err ==> final(self).ops() == old(self).ops(),
    ;

    /// Block for `ms` milliseconds.
    fn delay_ms(&mut self, ms: u32)
        ensures
            final(self).ops() == old(self).ops().push(BusOp::DelayMs { ms }),
    ;

    /// Block for `us` microseconds.
    fn delay_us(&mut self, us: u32)
        ensures
            final(self).ops() == old(self).ops().push(BusOp::DelayUs { us }),
    ;
}

/// The three bus writes plus settle delay that deliver one nibble: the
/// payload with enable low, with enable high, then the bare control lines
/// with enable low again.  The controller latches the nibble on the falling
/// enable edge; the backlight bit must be restated in every write because it
/// shares the expander byte.
pub open spec fn frame_seq(addr: u8, payload: u8, bl: u8) -> Seq<BusOp> {
    seq![
        BusOp::Write { addr, byte: payload | bl },
        BusOp::Write { addr, byte: payload | ENABLE | bl },
        BusOp::Write { addr, byte: bl },
        BusOp::DelayUs { us: SETTLE_US },
    ]
}

/// One 8-bit register write as two nibble transactions: high nibble first,
/// then the low nibble shifted into the data lines, both tagged with the same
/// register-select bit and the live backlight bit.
pub open spec fn send_seq(addr: u8, data: u8, mode: Mode, bl: u8) -> Seq<BusOp> {
    frame_seq(addr, (data & 0xf0) | mode_bit(mode), bl) + frame_seq(
        addr,
        ((data << 4) & 0xf0) | mode_bit(mode),
        bl,
    )
}

/// A command-mode register write.
pub open spec fn command_seq(addr: u8, data: u8, bl: u8) -> Seq<BusOp> {
    send_seq(addr, data, Mode::Cmd, bl)
}

/// Every nibble transaction is exactly three bus writes followed by the
/// settle delay: the payload with enable low, the same payload with enable
/// high, and the bare control lines with enable low again — so the enable
/// line pulses low, high, low, and every write restates the backlight bit.
pub proof fn lemma_frame_shape(addr: u8, payload: u8, bl: u8)
    requires
        payload & ENABLE == 0,
        payload & BACKLIGHT == 0,
        bl & ENABLE == 0,
    ensures
        frame_seq(addr, payload, bl).len() == 4,
        frame_seq(addr, payload, bl)[0] == (BusOp::Write { addr, byte: payload | bl }),
        frame_seq(addr, payload, bl)[1] == (BusOp::Write { addr, byte: (payload | bl) | ENABLE }),
        frame_seq(addr, payload, bl)[2] == (BusOp::Write { addr, byte: bl }),
        frame_seq(addr, payload, bl)[3] == (BusOp::DelayUs { us: SETTLE_US }),
        (payload | bl) & ENABLE == 0,
        ((payload | ENABLE) | bl) & ENABLE == ENABLE,
        (payload | bl) & BACKLIGHT == bl & BACKLIGHT,
{
    assert((payload | 0x04u8) | bl == (payload | bl) | 0x04u8) by (bit_vector);
    assert((payload | bl) & 0x04u8 == 0u8) by (bit_vector)
        requires
            payload & 0x04u8 == 0u8 && bl & 0x04u8 == 0u8,
    ;
    assert(((payload | 0x04u8) | bl) & 0x04u8 == 0x04u8) by (bit_vector);
    assert((payload | bl) & 0x08u8 == bl & 0x08u8) by (bit_vector)
        requires
            payload & 0x08u8 == 0u8,
    ;
}

/// Every register write decomposes into exactly two nibble transactions:
/// the first carries bits 4 to 7 of the data, the second carries bits 0 to 3
/// shifted into bits 4 to 7, and both carry the same register-select bit.
pub proof fn lemma_send_decomposition(addr: u8, data: u8, mode: Mode, bl: u8)
    ensures
        send_seq(addr, data, mode, bl) == frame_seq(addr, (data & 0xf0) | mode_bit(mode), bl)
            + frame_seq(addr, ((data << 4) & 0xf0) | mode_bit(mode), bl),
        ((data & 0xf0) | mode_bit(mode)) & 0xf0 == data & 0xf0,
        (((data << 4) & 0xf0) | mode_bit(mode)) & 0xf0 == (data << 4) & 0xf0,
        (((data << 4) & 0xf0) >> 4) == data & 0x0f,
        ((data & 0xf0) | mode_bit(mode)) & REGISTER_SELECT == mode_bit(mode),
        (((data << 4) & 0xf0) | mode_bit(mode)) & REGISTER_SELECT == mode_bit(mode),
        ((data & 0xf0) | mode_bit(mode)) & ENABLE == 0,
        (((data << 4) & 0xf0) | mode_bit(mode)) & ENABLE == 0,
{
    let mb = mode_bit(mode);
    assert(mb == 0 || mb == 1);
    assert(((data & 0xf0) | mb) & 0xf0 == data & 0xf0) by (bit_vector)
        requires
            mb == 0 || mb == 1,
    ;
    assert((((data << 4) & 0xf0) | mb) & 0xf0 == (data << 4) & 0xf0) by (bit_vector)
        requires
            mb == 0 || mb == 1,
    ;
    assert((((data << 4) & 0xf0) >> 4) == data & 0x0f) by (bit_vector);
    assert(((data & 0xf0) | mb) & 0x01u8 == mb) by (bit_vector)
        requires
            mb == 0 || mb == 1,
    ;
    assert((((data << 4) & 0xf0) | mb) & 0x01u8 == mb) by (bit_vector)
        requires
            mb == 0 || mb == 1,
    ;
    assert(((data & 0xf0) | mb) & 0x04u8 == 0u8) by (bit_vector)
        requires
            mb == 0 || mb == 1,
    ;
    assert((((data << 4) & 0xf0) | mb) & 0x04u8 == 0u8) by (bit_vector)
        requires
            mb == 0 || mb == 1,
    ;
}

/// An operation that intended to append `trace` to the log was cut short by a
/// bus error: the log grew by a strict prefix of `trace`, ending just before
/// the write that failed, and nothing was appended after the failure.
pub open spec fn aborted_at(ops0: Seq<BusOp>, ops1: Seq<BusOp>, trace: Seq<BusOp>) -> bool {
    exists|k: int|
        0 <= k < trace.len() && trace[k] is Write && ops1 == ops0 + #[trigger] trace.take(k)
}

/// Introduce `aborted_at` from a concrete failure index.
pub proof fn lemma_abort_witness(ops0: Seq<BusOp>, ops1: Seq<BusOp>, trace: Seq<BusOp>, k: int)
    requires
        0 <= k < trace.len(),
        trace[k] is Write,
        ops1 == ops0 + trace.take(k),
    ensures
        aborted_at(ops0, ops1, trace),
{
    assert(0 <= k < trace.len() && trace[k] is Write && ops1 == ops0 + trace.take(k));
}

/// An abort inside a sub-sequence is an abort of the whole: if `done` was
/// already delivered and the next piece `sub` was cut short, the log holds a
/// strict prefix of `done + sub + rest`.
pub proof fn lemma_abort_shift(
    ops0: Seq<BusOp>,
    ops1: Seq<BusOp>,
    ops2: Seq<BusOp>,
    done: Seq<BusOp>,
    sub: Seq<BusOp>,
    rest: Seq<BusOp>,
    full: Seq<BusOp>,
)
    requires
        ops1 == ops0 + done,
        aborted_at(ops1, ops2, sub),
        full == done + sub + rest,
    ensures
        aborted_at(ops0, ops2, full),
{
    let k = choose|k: int|
        0 <= k < sub.len() && sub[k] is Write && ops2 == ops1 + #[trigger] sub.take(k);
    let d = done.len() as int;
    assert(full[d + k] == sub[k]);
    assert(full.take(d + k) =~= done + sub.take(k));
    assert(ops2 =~= ops0 + full.take(d + k));
    lemma_abort_witness(ops0, ops2, full, d + k);
}

} // verus!
