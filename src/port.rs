//! The bus transport port: the SPI bus, the chip-select and reset lines and a
//! millisecond delay; the events that calls on it make, and the register
//! transactions framed from them.
use crate::register::Register;
use vstd::prelude::*;

verus! {

/// One thing done on the wires that lead to the chip.
#[derive(Clone, Copy, PartialEq, Eq, Structural, Debug)]
pub enum Event {
    /// The chip-select line was driven high (`true`) or low (`false`).
    Select(bool),
    /// The reset line was driven high (`true`) or low (`false`).
    Reset(bool),
    /// A two-byte full-duplex exchange: the two bytes sent, then the byte
    /// that came back in the second slot.
    Exchange(u8, u8, u8),
    /// Two bytes sent, with what came back discarded.
    Send(u8, u8),
    /// A pause of the given number of milliseconds.
    Pause(u8),
}

/// What the driver needs from the board: an SPI bus, two output lines and a
/// delay. The radio records each call that succeeds as an [`Event`].
pub trait Port {
    type BusError;
    type SelectError;
    type ResetError;

    /// Drives the chip-select line.
    fn set_select(&mut self, high: bool) -> Result<(), Self::SelectError>;

    /// Drives the reset line.
    fn set_reset(&mut self, high: bool) -> Result<(), Self::ResetError>;

    /// Exchanges two bytes and returns the two bytes received.
    fn transfer(&mut self, words: [u8; 2]) -> Result<[u8; 2], Self::BusError>;

    /// Sends two bytes.
    fn write(&mut self, words: [u8; 2]) -> Result<(), Self::BusError>;

    /// Waits for `ms` milliseconds.
    fn delay_ms(&mut self, ms: u8);
}

/// The events of one register read that returned `v`: select, send the
/// address with bit 7 clear and a placeholder byte, deselect.
pub open spec fn read_frame(reg: Register, v: u8) -> Seq<Event> {
    seq![Event::Select(false), Event::Exchange(reg.address() & 0x7f, 0, v), Event::Select(true)]
}

/// The events of one register write of `v`: select, send the address with
/// bit 7 set and the value, deselect.
pub open spec fn write_frame(reg: Register, v: u8) -> Seq<Event> {
    seq![Event::Select(false), Event::Send(reg.address() | 0x80, v), Event::Select(true)]
}

} // verus!
