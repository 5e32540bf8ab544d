//! A simulated transceiver behind a port: a register file and a 256-byte
//! FIFO that answer register transactions as the chip does, for driving the
//! radio without hardware.
use crate::port::Port;
use vstd::prelude::*;

verus! {

/// Address of the FIFO access register.
pub const FIFO: usize = 0x00;

/// Address of the FIFO pointer register.
pub const FIFO_ADDR_PTR: usize = 0x0d;

/// Address of the current receive address register.
pub const FIFO_RX_CURRENT_ADDR: usize = 0x10;

/// Address of the IRQ flags register.
pub const IRQ_FLAGS: usize = 0x12;

/// Address of the received-byte count register.
pub const RX_NB_BYTES: usize = 0x13;

/// Address of the version register.
pub const VERSION: usize = 0x42;

/// A simulated chip. Reads of the FIFO register return the byte at the FIFO
/// pointer and advance it, writes store there and advance it; writes to the
/// IRQ flags clear the bits written; every other register holds what was
/// last written to it.
pub struct SimChip {
    regs: [u8; 128],
    fifo: [u8; 256],
    fifo_log: Vec<u8>,
    bus_fails: bool,
    select_fails: bool,
    reset_fails: bool,
}

impl SimChip {
    /// The value of register `a`.
    pub closed spec fn reg(&self, a: int) -> u8 {
        self.regs@[a]
    }

    /// The FIFO byte at address `a`.
    pub closed spec fn fifo_byte(&self, a: int) -> u8 {
        self.fifo@[a]
    }

    /// The bytes written to the FIFO register so far, in order.
    pub closed spec fn fifo_writes(&self) -> Seq<u8> {
        self.fifo_log@
    }

    /// A chip whose registers are all 0 but the version register, which
    /// holds `version`, with nothing done through it yet.
    pub fn new(version: u8) -> (r: SimChip)
        ensures
            r.reg(VERSION as int) == version,
            forall|a: int| 0 <= a < 128 && a != VERSION ==> r.reg(a) == 0,
            r.fifo_writes() == Seq::<u8>::empty(),
    {
        let mut regs = [0u8; 128];
        regs[VERSION] = version;
        SimChip {
            regs,
            fifo: [0u8; 256],
            fifo_log: Vec::new(),
            bus_fails: false,
            select_fails: false,
            reset_fails: false,
        }
    }

    /// The value of register `addr`.
    pub fn register(&self, addr: u8) -> (r: u8)
        requires
            addr < 128,
        ensures
            r == self.reg(addr as int),
    {
        self.regs[addr as usize]
    }

    /// Sets register `addr` to `value`, as the chip itself would.
    pub fn set_register(&mut self, addr: u8, value: u8)
        requires
            addr < 128,
        ensures
            final(self).reg(addr as int) == value,
            forall|a: int| 0 <= a < 128 && a != addr ==> final(self).reg(a) == old(self).reg(a),
            final(self).fifo_writes() == old(self).fifo_writes(),
    {
        self.regs[addr as usize] = value;
    }

    /// The bytes written to the FIFO register so far, in order.
    pub fn fifo_written(&self) -> (r: Vec<u8>)
        ensures
            r@ == self.fifo_writes(),
    {
        self.fifo_log.clone()
    }

    /// Makes every later bus transfer fail, or succeed again.
    pub fn set_bus_failure(&mut self, fails: bool) {
        self.bus_fails = fails;
    }

    /// Makes every later drive of the chip-select line fail, or succeed again.
    pub fn set_select_failure(&mut self, fails: bool) {
        self.select_fails = fails;
    }

    /// Makes every later drive of the reset line fail, or succeed again.
    pub fn set_reset_failure(&mut self, fails: bool) {
        self.reset_fails = fails;
    }

    /// Receives a packet: stores `packet` in the FIFO from the current
    /// receive address on, sets the received-byte count and raises the
    /// receive-done flag (bit 6 of the IRQ flags).
    pub fn receive(&mut self, packet: &[u8])
        requires
            packet@.len() <= 255,
        ensures
            forall|i: int|
                0 <= i < packet@.len() ==> final(self).fifo_byte(
                    (old(self).reg(FIFO_RX_CURRENT_ADDR as int) + i) % 256,
                ) == packet@[i],
            final(self).reg(RX_NB_BYTES as int) == packet@.len(),
            final(self).reg(IRQ_FLAGS as int) & 0x40 != 0,
    {
        let start: usize = self.regs[FIFO_RX_CURRENT_ADDR] as usize;
        let mut i: usize = 0;
        while i < packet.len()
            invariant
                i <= packet@.len(),
                packet@.len() <= 255,
                start < 256,
                start == old(self).regs@[FIFO_RX_CURRENT_ADDR as int],
                self.regs == old(self).regs,
                forall|j: int| 0 <= j < i ==> self.fifo@[(start + j) % 256] == packet@[j],
            decreases packet@.len() - i,
        {
            let ghost before = self.fifo@;
            self.fifo[(start + i) % 256] = packet[i];
            proof {
                assert forall|j: int| 0 <= j < i + 1 implies self.fifo@[(start + j) % 256]
                    == packet@[j] by {
                    if j < i {
                        assert((start + j) % 256 != (start + i) % 256);
                        assert(before[(start + j) % 256] == packet@[j]);
                    }
                };
            }
            i = i + 1;
        }
        self.regs[RX_NB_BYTES] = packet.len() as u8;
        let flags = self.regs[IRQ_FLAGS];
        self.regs[IRQ_FLAGS] = flags | 0x40;
        assert((flags | 0x40u8) & 0x40u8 != 0) by (bit_vector);
    }

    /// Moves the FIFO pointer one byte on, wrapping at 256, and returns where
    /// it was.
    fn advance_fifo_pointer(&mut self) -> (r: usize)
        ensures
            r < 256,
            final(self).fifo == old(self).fifo,
            final(self).fifo_log == old(self).fifo_log,
            final(self).bus_fails == old(self).bus_fails,
    {
        let ptr: u8 = self.regs[FIFO_ADDR_PTR];
        self.regs[FIFO_ADDR_PTR] = if ptr == 255 {
            0
        } else {
            ptr + 1
        };
        ptr as usize
    }
}

impl Port for SimChip {
    type BusError = ();

    type SelectError = ();

    type ResetError = ();

    fn set_select(&mut self, _high: bool) -> Result<(), ()> {
        if self.select_fails {
            Err(())
        } else {
            Ok(())
        }
    }

    fn set_reset(&mut self, _high: bool) -> Result<(), ()> {
        if self.reset_fails {
            Err(())
        } else {
            Ok(())
        }
    }

    fn transfer(&mut self, words: [u8; 2]) -> Result<[u8; 2], ()> {
        if self.bus_fails {
            return Err(());
        }
        let w0: u8 = words[0];
        let a: usize = (w0 & 0x7f) as usize;
        assert(w0 & 0x7f < 128) by (bit_vector);
        let v: u8 = if a == FIFO {
            let ptr = self.advance_fifo_pointer();
            self.fifo[ptr]
        } else {
            self.regs[a]
        };
        Ok([0, v])
    }

    fn write(&mut self, words: [u8; 2]) -> Result<(), ()> {
        if self.bus_fails {
            return Err(());
        }
        let w0: u8 = words[0];
        let a: usize = (w0 & 0x7f) as usize;
        assert(w0 & 0x7f < 128) by (bit_vector);
        let v: u8 = words[1];
        if a == FIFO {
            let ptr = self.advance_fifo_pointer();
            self.fifo[ptr] = v;
            self.fifo_log.push(v);
        } else if a == IRQ_FLAGS {
            let flags = self.regs[IRQ_FLAGS];
            self.regs[IRQ_FLAGS] = flags & !v;
        } else {
            self.regs[a] = v;
        }
        Ok(())
    }

    fn delay_ms(&mut self, _ms: u8) {
    }
}

} // verus!
