//! Driver for HD44780-family character LCDs wired behind an 8-bit I2C GPIO
//! expander ("PCF8574" backpack).
//!
//! The controller only exposes a 4-bit data path multiplexed with the
//! register-select, enable and backlight lines onto a single expander byte, so
//! every logical register write decomposes into a fixed sequence of raw bus
//! writes and settle delays.  The whole protocol — nibble framing, the
//! power-on initialization handshake, command composition and the mirrored
//! display state — is specified here as sequences of [`proto::BusOp`] values,
//! and the driver is proved to emit exactly those sequences.
//!
//! The physical bus and the timing source are abstract capabilities
//! ([`proto::Interface`]); [`recorder::Recorder`] is an implementation that
//! records the operations so they can be inspected or replayed.

pub mod driver;
pub mod proto;
pub mod recorder;
