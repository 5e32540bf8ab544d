//! The radio handle: register access, mode and configuration, packet
//! transmit and receive, and diagnostics.
use crate::encoding::{
    bandwidth_field, bandwidth_hz, bandwidth_hz_of, bandwidth_index, bandwidth_index_of,
    clamp_spreading_factor, coding_rate_config, detection_values, freq_error_hz, freq_error_raw,
    frequency_bytes, frequency_error, frf_lsb, frf_mid, frf_msb, frf_of, low_data_rate,
    low_data_rate_due, ocp_register, ocp_trim, ocp_trim_of, spreading_factor_clamp,
    spreading_factor_field, with_bandwidth, with_coding_rate, with_spreading_factor,
};
use crate::outside::{get_bit, payload_items, payload_slice, set_bit};
use crate::port::{read_frame, write_frame, Event, Port};
use crate::register::{RadioMode, Register};
use vstd::prelude::*;

verus! {

/// The version register value of the supported chip family.
pub const VERSION_CHECK: u8 = 0x12;

/// What can go wrong in a call on the radio.
#[derive(Debug)]
pub enum Error<SPI, CS, RESET> {
    /// A receive poll ran out of time.
    Uninformative,
    /// The version register did not hold the expected value.
    VersionMismatch(u8),
    /// The chip-select line failed.
    CS(CS),
    /// The reset line failed.
    Reset(RESET),
    /// The SPI bus failed.
    SPI(SPI),
    /// A packet is being sent.
    Transmitting,
}

impl<SPI, CS, RESET> Error<SPI, CS, RESET> {
    /// Whether the error is a failure of the bus or of one of the two lines.
    pub open spec fn is_port_fault(&self) -> bool {
        self is CS || self is Reset || self is SPI
    }
}

impl<SPI, CS, RESET> Error<SPI, CS, RESET> {
    /// Whether the error is the one that a failure of the port call recorded
    /// as `ev` gives.
    pub open spec fn is_fault_of(&self, ev: Event) -> bool {
        match ev {
            Event::Select(_) => self is CS,
            Event::Reset(_) => self is Reset,
            Event::Exchange(_, _, _) => self is SPI,
            Event::Send(_, _) => self is SPI,
            Event::Pause(_) => false,
        }
    }
}

/// Whether a call meant to make the events `frames` stopped at a failed port
/// call with error `e`: `after` is `before` followed by the frames up to the
/// failed one, nothing after it was done, and `e` matches the call that
/// failed.
pub open spec fn stopped_at<SPI, CS, RESET>(
    before: Seq<Event>,
    after: Seq<Event>,
    frames: Seq<Event>,
    e: Error<SPI, CS, RESET>,
) -> bool {
    let k = after.len() - before.len();
    before.len() <= after.len() && k < frames.len() && after == before + frames.take(k)
        && e.is_fault_of(frames[k])
}

/// A call that stopped inside `sub`, after the events `done`, stopped inside
/// `all`, made of `done + sub + rest`, too.
proof fn lemma_stop_extends<SPI, CS, RESET>(
    before: Seq<Event>,
    after: Seq<Event>,
    done: Seq<Event>,
    sub: Seq<Event>,
    rest: Seq<Event>,
    e: Error<SPI, CS, RESET>,
    all: Seq<Event>,
)
    requires
        stopped_at(before + done, after, sub, e),
        all =~= done + sub + rest,
    ensures
        stopped_at(before, after, all, e),
{
    let k = after.len() - (before + done).len();
    assert(all.take(done.len() + k) =~= done + sub.take(k));
    assert(all[done.len() + k] == sub[k]);
    assert(after =~= before + all.take(done.len() + k));
}

/// Whether `after` begins with `before`: nothing done was undone.
pub open spec fn extends(after: Seq<Event>, before: Seq<Event>) -> bool {
    before.len() <= after.len() && after.subrange(0, before.len() as int) == before
}

/// A call that stopped at a failed port call kept what was done before it.
proof fn lemma_stopped_extends<SPI, CS, RESET>(
    before: Seq<Event>,
    after: Seq<Event>,
    frames: Seq<Event>,
    e: Error<SPI, CS, RESET>,
)
    requires
        stopped_at(before, after, frames, e),
    ensures
        extends(after, before),
{
    assert(after.subrange(0, before.len() as int) =~= before);
}

/// Beginning with a history that begins with `a` is beginning with `a`.
proof fn lemma_extends_trans(c: Seq<Event>, b: Seq<Event>, a: Seq<Event>)
    requires
        extends(c, b),
        extends(b, a),
    ensures
        extends(c, a),
{
    assert(c.subrange(0, a.len() as int) =~= b.subrange(0, a.len() as int));
}

/// The error type of a radio reached through port `P`.
pub type Fault<P> = Error<<P as Port>::BusError, <P as Port>::SelectError, <P as Port>::ResetError>;

/// A packet that knows its preamble.
pub trait Packet {
    fn preamble(self) -> u8;
}

/// A handle on one transceiver. It owns the port, and caches the carrier
/// frequency, the header mode and the operating mode last confirmed written.
/// Its history records every port call that succeeded, in order.
pub struct LoRa<P: Port> {
    port: P,
    log: Ghost<Seq<Event>>,
    frequency: u32,
    pub explicit_header: bool,
    pub mode: RadioMode,
}

/// The events of a read-modify-write of `reg` that read `v` and wrote `w`.
pub open spec fn update_frames(reg: Register, v: u8, w: u8) -> Seq<Event> {
    read_frame(reg, v) + write_frame(reg, w)
}

/// The events of setting the preamble length to `length` symbols: its two
/// low bytes, high byte first.
pub open spec fn preamble_frames(length: i64) -> Seq<Event> {
    write_frame(Register::RegPreambleMsb, ((length as u64) >> 8u64) as u8) + write_frame(
        Register::RegPreambleLsb,
        length as u8,
    )
}

/// The events of inverting the IQ signals (`value`) or restoring them.
pub open spec fn invert_iq_frames(value: bool) -> Seq<Event> {
    if value {
        write_frame(Register::RegInvertiq, 0x66) + write_frame(Register::RegInvertiq2, 0x19)
    } else {
        write_frame(Register::RegInvertiq, 0x27) + write_frame(Register::RegInvertiq2, 0x1d)
    }
}

/// Modem configuration 2 with the CRC bit (bit 2) set to `on`.
pub open spec fn with_crc(config: u8, on: bool) -> u8 {
    if on {
        config | 0x04
    } else {
        config & 0xfb
    }
}

/// Modem configuration 1 with the header-mode bit set to match `explicit`.
pub open spec fn with_header_mode(config: u8, explicit: bool) -> u8 {
    if explicit {
        config & 0xfe
    } else {
        config | 0x01
    }
}

/// The events of re-applying header mode `explicit` when modem
/// configuration 1 read `v`.
pub open spec fn header_frames(explicit: bool, v: u8) -> Seq<Event> {
    update_frames(Register::RegModemConfig1, v, with_header_mode(v, explicit))
}

/// The operating-mode register value for `mode`: the long-range bit always set.
pub open spec fn op_mode_value(mode: RadioMode) -> u8 {
    0x80u8 | mode.value()
}

/// The events of switching to `mode` under header mode `explicit`, when
/// modem configuration 1 read `v`.
pub open spec fn mode_frames(explicit: bool, v: u8, mode: RadioMode) -> Seq<Event> {
    header_frames(explicit, v) + write_frame(Register::RegOpMode, op_mode_value(mode))
}

/// The events of writing the carrier frequency `freq` MHz.
pub open spec fn frequency_frames(freq: u32) -> Seq<Event> {
    write_frame(Register::RegFrfMsb, frf_msb(frf_of(freq))) + write_frame(
        Register::RegFrfMid,
        frf_mid(frf_of(freq)),
    ) + write_frame(Register::RegFrfLsb, frf_lsb(frf_of(freq)))
}

/// Switching to any mode writes the mode's bits with the long-range bit set.
pub proof fn lemma_op_mode_value(mode: RadioMode)
    ensures
        mode != RadioMode::LongRangeMode ==> op_mode_value(mode) & 0x07 == mode.value(),
        op_mode_value(mode) & 0x80 == 0x80,
{
    let v = mode.value();
    assert(v == 0 || v == 1 || v == 3 || v == 5 || v == 6 || v == 0x80);
    assert((v == 0 || v == 1 || v == 3 || v == 5 || v == 6) ==> (0x80u8 | v) & 0x07 == v)
        by (bit_vector);
    assert((0x80u8 | v) & 0x80 == 0x80) by (bit_vector);
}

/// Whether IRQ flags `flags` report a finished reception (bit 6).
pub open spec fn rx_done(flags: u8) -> bool {
    flags & 0x40 != 0
}

/// Whether none of the IRQ flag values `flags` reports a finished reception.
pub open spec fn all_idle(flags: Seq<u8>) -> bool {
    forall|k: int| 0 <= k < flags.len() ==> !rx_done(#[trigger] flags[k])
}

/// The events of clearing the IRQ flags, which read `v` and wrote it back.
pub open spec fn clear_frames(v: u8) -> Seq<Event> {
    update_frames(Register::RegIrqFlags, v, v)
}

/// The events of writing `bytes` to the FIFO one by one, in order.
pub open spec fn fifo_write_frames(bytes: Seq<u8>) -> Seq<Event>
    decreases bytes.len(),
{
    if bytes.len() == 0 {
        Seq::empty()
    } else {
        fifo_write_frames(bytes.drop_last()) + write_frame(Register::RegFifo, bytes.last())
    }
}

/// Writing a sequence of bytes to the FIFO is writing its first `i` bytes,
/// then the rest.
proof fn lemma_fifo_write_split(s: Seq<u8>, i: int)
    requires
        0 <= i <= s.len(),
    ensures
        fifo_write_frames(s) == fifo_write_frames(s.subrange(0, i)) + fifo_write_frames(
            s.subrange(i, s.len() as int),
        ),
    decreases s.len(),
{
    if i == s.len() {
        assert(s.subrange(0, i) =~= s);
        assert(s.subrange(i, s.len() as int) =~= Seq::<u8>::empty());
        assert(fifo_write_frames(s) + Seq::<Event>::empty() =~= fifo_write_frames(s));
    } else {
        let d = s.drop_last();
        lemma_fifo_write_split(d, i);
        assert(d.subrange(0, i) =~= s.subrange(0, i));
        let t = s.subrange(i, s.len() as int);
        assert(t.drop_last() =~= d.subrange(i, d.len() as int));
        assert(t.last() == s.last());
        assert(fifo_write_frames(s) =~= fifo_write_frames(s.subrange(0, i)) + fifo_write_frames(t));
    }
}

/// The events of reading `bytes` from the FIFO one by one, in order.
pub open spec fn fifo_read_frames(bytes: Seq<u8>) -> Seq<Event>
    decreases bytes.len(),
{
    if bytes.len() == 0 {
        Seq::empty()
    } else {
        fifo_read_frames(bytes.drop_last()) + read_frame(Register::RegFifo, bytes.last())
    }
}

/// Reading a sequence of bytes from the FIFO is reading its first `i`
/// bytes, then the rest.
proof fn lemma_fifo_read_split(s: Seq<u8>, i: int)
    requires
        0 <= i <= s.len(),
    ensures
        fifo_read_frames(s) == fifo_read_frames(s.subrange(0, i)) + fifo_read_frames(
            s.subrange(i, s.len() as int),
        ),
    decreases s.len(),
{
    if i == s.len() {
        assert(s.subrange(0, i) =~= s);
        assert(s.subrange(i, s.len() as int) =~= Seq::<u8>::empty());
        assert(fifo_read_frames(s) + Seq::<Event>::empty() =~= fifo_read_frames(s));
    } else {
        let d = s.drop_last();
        lemma_fifo_read_split(d, i);
        assert(d.subrange(0, i) =~= s.subrange(0, i));
        let t = s.subrange(i, s.len() as int);
        assert(t.drop_last() =~= d.subrange(i, d.len() as int));
        assert(t.last() == s.last());
        assert(fifo_read_frames(s) =~= fifo_read_frames(s.subrange(0, i)) + fifo_read_frames(t));
    }
}

/// The events of looking at the IRQ flags once per value of `flags`, each
/// look followed by a pause of 1 ms.
pub open spec fn idle_frames(flags: Seq<u8>) -> Seq<Event>
    decreases flags.len(),
{
    if flags.len() == 0 {
        Seq::empty()
    } else {
        idle_frames(flags.drop_last()) + read_frame(Register::RegIrqFlags, flags.last()) + seq![
            Event::Pause(1),
        ]
    }
}

/// The events of finding a received packet of `n` bytes: the IRQ flags read
/// `f`, cleared from `c`, then the received-byte count read.
pub open spec fn ready_frames(f: u8, c: u8, n: u8) -> Seq<Event> {
    read_frame(Register::RegIrqFlags, f) + clear_frames(c) + read_frame(Register::RegRxNbBytes, n)
}

/// The events of a receive poll that found a packet of `n` bytes: the switch
/// to continuous receive (modem configuration 1 read `v`), one idle look per
/// value of `idle`, then the look that found it.
pub open spec fn received_frames(explicit: bool, v: u8, idle: Seq<u8>, f: u8, c: u8, n: u8) -> Seq<
    Event,
> {
    mode_frames(explicit, v, RadioMode::RxContinuous) + idle_frames(idle) + ready_frames(f, c, n)
}

/// The events of a receive poll that ran out of time: the switch to
/// continuous receive, one idle look per value of `idle`, then a last look
/// that read `f`.
pub open spec fn timed_out_frames(explicit: bool, v: u8, idle: Seq<u8>, f: u8) -> Seq<Event> {
    mode_frames(explicit, v, RadioMode::RxContinuous) + idle_frames(idle) + read_frame(
        Register::RegIrqFlags,
        f,
    )
}

/// Whether `after` is `before` followed by a receive poll, under header mode
/// `explicit` and a timeout of `timeout_ms` looks, that found a packet of `n`
/// bytes.
pub open spec fn received_within(
    before: Seq<Event>,
    after: Seq<Event>,
    explicit: bool,
    timeout_ms: i32,
    n: u8,
) -> bool {
    exists|v: u8, idle: Seq<u8>, f: u8, c: u8|
        idle.len() <= (if timeout_ms > 0 {
            timeout_ms as int
        } else {
            0
        }) && all_idle(idle) && rx_done(f) && after == before + #[trigger] received_frames(
            explicit,
            v,
            idle,
            f,
            c,
            n,
        )
}

/// Whether `after` is `before` followed by a receive poll, under header mode
/// `explicit`, that looked `timeout_ms` times plus once (once for a timeout
/// of 0 or less) and never found a packet.
pub open spec fn timed_out(before: Seq<Event>, after: Seq<Event>, explicit: bool, timeout_ms: i32) -> bool {
    exists|v: u8, idle: Seq<u8>, f: u8|
        idle.len() == (if timeout_ms > 0 {
            timeout_ms as int
        } else {
            0
        }) && all_idle(idle) && !rx_done(f) && after == before + #[trigger] timed_out_frames(
            explicit,
            v,
            idle,
            f,
        )
}

/// A receive poll with a timeout of 0 or less that runs out of time has
/// looked at the IRQ flags exactly once after switching to receive.
pub proof fn lemma_zero_timeout_looks_once(
    before: Seq<Event>,
    after: Seq<Event>,
    explicit: bool,
    timeout_ms: i32,
)
    requires
        timeout_ms <= 0,
        timed_out(before, after, explicit, timeout_ms),
    ensures
        exists|v: u8, f: u8|
            #![trigger mode_frames(explicit, v, RadioMode::RxContinuous), read_frame(Register::RegIrqFlags, f)]
            !rx_done(f) && after == before + mode_frames(explicit, v, RadioMode::RxContinuous)
                + read_frame(Register::RegIrqFlags, f),
{
    let (v, idle, f) = choose|v: u8, idle: Seq<u8>, f: u8|
        idle.len() == 0 && all_idle(idle) && !rx_done(f) && after == before
            + #[trigger] timed_out_frames(explicit, v, idle, f);
    assert(idle_frames(idle) =~= Seq::empty());
    assert(after =~= before + mode_frames(explicit, v, RadioMode::RxContinuous) + read_frame(
        Register::RegIrqFlags,
        f,
    ));
}

/// Modem configuration 3 with the low-data-rate-optimization bit (bit 3) set
/// to `on`.
pub open spec fn with_low_data_rate(config: u8, on: bool) -> u8 {
    if on {
        config | 0x08
    } else {
        config & 0xf7
    }
}

/// The events of recomputing the low-data-rate-optimization flag, when modem
/// configurations 1, 2 and 3 read `c1`, `c2` and `c3`.
pub open spec fn low_data_rate_frames(c1: u8, c2: u8, c3: u8) -> Seq<Event> {
    read_frame(Register::RegModemConfig1, c1) + read_frame(Register::RegModemConfig2, c2)
        + update_frames(
        Register::RegModemConfig3,
        c3,
        with_low_data_rate(
            c3,
            low_data_rate_due(bandwidth_hz_of(bandwidth_field(c1)), spreading_factor_field(c2)),
        ),
    )
}

/// The events of setting spreading factor `sf`, when modem configuration 2
/// read `v` and the flag recomputation read `c1`, `c2` and `c3`.
pub open spec fn spreading_factor_frames(sf: u8, v: u8, c1: u8, c2: u8, c3: u8) -> Seq<Event> {
    let s = clamp_spreading_factor(sf);
    write_frame(Register::RegDetectionOptimize, detection_values(s).0) + write_frame(
        Register::RegDetectionThreshold,
        detection_values(s).1,
    ) + update_frames(Register::RegModemConfig2, v, with_spreading_factor(v, s))
        + low_data_rate_frames(c1, c2, c3)
}

/// The events of setting the signal bandwidth to `hz`, when modem
/// configuration 1 read `v` and the flag recomputation read `c1`, `c2` and
/// `c3`.
pub open spec fn bandwidth_frames(hz: i64, v: u8, c1: u8, c2: u8, c3: u8) -> Seq<Event> {
    update_frames(Register::RegModemConfig1, v, with_bandwidth(v, bandwidth_index_of(hz)))
        + low_data_rate_frames(c1, c2, c3)
}

/// The events of reading the frequency error: the three error registers
/// (`a`, `b`, `c`), then modem configuration 1 (`m`) for the bandwidth.
pub open spec fn freq_error_frames(a: u8, b: u8, c: u8, m: u8) -> Seq<Event> {
    read_frame(Register::RegFreqErrorMsb, a) + read_frame(Register::RegFreqErrorMid, b)
        + read_frame(Register::RegFreqErrorLsb, c) + read_frame(Register::RegModemConfig1, m)
}

/// A spreading factor below 6 has the same effect on the chip as 6, and one
/// above 12 the same as 12.
pub proof fn lemma_spreading_factor_saturates(sf: u8, v: u8, c1: u8, c2: u8, c3: u8)
    ensures
        sf < 6 ==> spreading_factor_frames(sf, v, c1, c2, c3) == spreading_factor_frames(
            6,
            v,
            c1,
            c2,
            c3,
        ),
        sf > 12 ==> spreading_factor_frames(sf, v, c1, c2, c3) == spreading_factor_frames(
            12,
            v,
            c1,
            c2,
            c3,
        ),
{
}

/// The power-amplifier configuration value for `level` dB on the RFO pin
/// (`use_rfo`) or on PA_BOOST.
pub open spec fn pa_config_value(level: u8, use_rfo: bool) -> u8 {
    if use_rfo {
        0x70 | (if level > 14 {
            14u8
        } else {
            level
        })
    } else if level > 17 {
        0x80 | ((if level > 20 {
            20u8
        } else {
            level
        }) - 5) as u8
    } else {
        0x80 | ((if level < 2 {
            2u8
        } else {
            level
        }) - 2) as u8
    }
}

/// The events of sending `payload` under header mode `explicit`, when modem
/// configuration 1 read `v1`, `v2` and `v3` in turn.
pub open spec fn transmit_frames(explicit: bool, v1: u8, v2: u8, v3: u8, payload: Seq<u8>) -> Seq<
    Event,
> {
    mode_frames(explicit, v1, RadioMode::Stdby) + header_frames(explicit, v2) + write_frame(
        Register::RegIrqFlags,
        0,
    ) + write_frame(Register::RegFifoAddrPtr, 0) + write_frame(Register::RegPayloadLength, 0)
        + write_frame(Register::RegFifo, payload.len() as u8) + fifo_write_frames(payload)
        + mode_frames(explicit, v3, RadioMode::Tx)
}

/// The events of reading out a received packet of bytes `bytes`: clear the
/// IRQ flags (read `c`), read the count and the current FIFO address `a`,
/// point the FIFO there, read the bytes, point the FIFO back to 0.
pub open spec fn read_packet_frames(c: u8, a: u8, bytes: Seq<u8>) -> Seq<Event> {
    clear_frames(c) + read_frame(Register::RegRxNbBytes, bytes.len() as u8) + read_frame(
        Register::RegFifoRxCurrentAddr,
        a,
    ) + write_frame(Register::RegFifoAddrPtr, a) + fifo_read_frames(bytes) + write_frame(
        Register::RegFifoAddrPtr,
        0,
    )
}

/// The reset pulse: 10 ms low, then 10 ms high.
pub open spec fn reset_pulse() -> Seq<Event> {
    seq![Event::Reset(false), Event::Pause(10), Event::Reset(true), Event::Pause(10)]
}

/// The events of configuring the chip for `freq` MHz under header mode
/// `explicit`: in Sleep, the carrier, both FIFO base addresses at 0, the LNA
/// boost and the modem timing bit, then Standby and chip-select released.
/// `a` and `b` are what modem configuration 1 read on each mode change, `l`
/// what the LNA register read.
pub open spec fn config_frames(freq: u32, explicit: bool, a: u8, l: u8, b: u8) -> Seq<Event> {
    mode_frames(explicit, a, RadioMode::Sleep) + frequency_frames(freq) + write_frame(
        Register::RegFifoTxBaseAddr,
        0,
    ) + write_frame(Register::RegFifoRxBaseAddr, 0) + read_frame(Register::RegLna, l)
        + write_frame(Register::RegLna, l | 0x03) + write_frame(Register::RegModemConfig3, 0x04)
        + mode_frames(explicit, b, RadioMode::Stdby) + seq![Event::Select(true)]
}

/// The events of bringing the chip up at `freq` MHz under header mode
/// `explicit`: the reset pulse, the version read (`ver`), then the
/// configuration.
pub open spec fn init_frames(freq: u32, explicit: bool, ver: u8, a: u8, l: u8, b: u8) -> Seq<Event> {
    reset_pulse() + read_frame(Register::RegVersion, ver) + config_frames(freq, explicit, a, l, b)
}

impl<P: Port> LoRa<P> {
    /// Brings the radio up at `frequency` MHz: a reset pulse of 10 ms low and
    /// 10 ms high, a check of the version register, then, in Sleep, the
    /// carrier, both FIFO base addresses at 0, the LNA boost, the modem
    /// timing bit, and Standby. Only one handle should exist per chip.
    pub fn new(port: P, frequency: u32) -> (r: Result<Self, Fault<P>>)
        ensures
            r matches Err(e) ==> e.is_port_fault() || (e matches Error::VersionMismatch(v) && v
                != VERSION_CHECK),
            r matches Ok(lora) ==> lora.cached_mode() == RadioMode::Stdby && lora.is_explicit()
                && lora.carrier() == frequency && exists|a: u8, l: u8, b: u8|
                lora.history() == #[trigger] init_frames(frequency, true, VERSION_CHECK, a, l, b),
    {
        let mut radio = LoRa {
            port,
            log: Ghost(Seq::empty()),
            frequency,
            explicit_header: true,
            mode: RadioMode::Sleep,
        };
        radio.start(frequency)?;
        assert(Seq::<Event>::empty() + radio.history() =~= radio.history());
        Ok(radio)
    }

    /// Reads the version register and checks it against the chip family's
    /// value, reporting the value read when it differs.
    pub fn check_version(&mut self) -> (r: Result<(), Fault<P>>)
        ensures
            final(self).same_cache(old(self)),
            r matches Err(e) ==> e.is_port_fault() || e is VersionMismatch,
            r is Ok ==> final(self).history() == old(self).history() + read_frame(
                Register::RegVersion,
                VERSION_CHECK,
            ),
            r matches Err(Error::VersionMismatch(v)) ==> v != VERSION_CHECK && final(self).history()
                == old(self).history() + read_frame(Register::RegVersion, v),
            r matches Err(e) ==> (e.is_port_fault() ==> exists|v: u8|
                stopped_at(
                    old(self).history(),
                    final(self).history(),
                    #[trigger] read_frame(Register::RegVersion, v),
                    e,
                )),
    {
        let version = self.read_register(Register::RegVersion)?;
        if version == VERSION_CHECK {
            Ok(())
        } else {
            Err(Error::VersionMismatch(version))
        }
    }

    /// The start-up sequence of `new`, on the handle's port: the reset pulse,
    /// the version check, then the configuration.
    #[verifier::spinoff_prover]
    fn start(&mut self, frequency: u32) -> (r: Result<(), Fault<P>>)
        ensures
            r matches Err(e) ==> e.is_port_fault() || e is VersionMismatch,
            r is Ok ==> final(self).cached_mode() == RadioMode::Stdby && final(self).is_explicit()
                == old(self).is_explicit() && final(self).carrier() == frequency,
            r is Ok ==> exists|a: u8, l: u8, b: u8|
                final(self).history() == old(self).history() + #[trigger] init_frames(
                    frequency,
                    old(self).is_explicit(),
                    VERSION_CHECK,
                    a,
                    l,
                    b,
                ),
            r matches Err(Error::VersionMismatch(v)) ==> v != VERSION_CHECK && final(self).history()
                == old(self).history() + reset_pulse() + read_frame(Register::RegVersion, v),
            r matches Err(e) ==> (e.is_port_fault() ==> exists|ver: u8, a: u8, l: u8, b: u8|
                stopped_at(
                    old(self).history(),
                    final(self).history(),
                    #[trigger] init_frames(frequency, old(self).is_explicit(), ver, a, l, b),
                    e,
                )),
    {
        let ghost ex = old(self).is_explicit();
        let ghost h0 = self.history();
        let ghost tail = read_frame(Register::RegVersion, 0) + config_frames(frequency, ex, 0, 0, 0);
        assert(h0 =~= h0 + Seq::<Event>::empty());
        match self.drive_reset(false) {
            Ok(()) => {},
            Err(e) => {
                proof {
                    lemma_stop_extends(
                        h0,
                        self.history(),
                        Seq::empty(),
                        seq![Event::Reset(false)],
                        seq![Event::Pause(10), Event::Reset(true), Event::Pause(10)] + tail,
                        e,
                        init_frames(frequency, ex, 0, 0, 0, 0),
                    );
                }
                return Err(e);
            },
        }
        self.pause(10);
        assert(self.history() =~= h0 + seq![Event::Reset(false), Event::Pause(10)]);
        match self.drive_reset(true) {
            Ok(()) => {},
            Err(e) => {
                proof {
                    lemma_stop_extends(
                        h0,
                        self.history(),
                        seq![Event::Reset(false), Event::Pause(10)],
                        seq![Event::Reset(true)],
                        seq![Event::Pause(10)] + tail,
                        e,
                        init_frames(frequency, ex, 0, 0, 0, 0),
                    );
                }
                return Err(e);
            },
        }
        self.pause(10);
        assert(self.history() =~= h0 + reset_pulse());
        match self.check_version() {
            Ok(()) => {},
            Err(e) => {
                proof {
                    if e.is_port_fault() {
                        let v = choose|v: u8|
                            stopped_at(
                                h0 + reset_pulse(),
                                self.history(),
                                #[trigger] read_frame(Register::RegVersion, v),
                                e,
                            );
                        lemma_stop_extends(
                            h0,
                            self.history(),
                            reset_pulse(),
                            read_frame(Register::RegVersion, v),
                            config_frames(frequency, ex, 0, 0, 0),
                            e,
                            init_frames(frequency, ex, v, 0, 0, 0),
                        );
                    }
                }
                return Err(e);
            },
        }
        let ghost h1 = self.history();
        assert(h1 =~= h0 + (reset_pulse() + read_frame(Register::RegVersion, VERSION_CHECK)));
        match self.configure(frequency) {
            Ok(()) => {},
            Err(e) => {
                proof {
                    let (a, l, b) = choose|a: u8, l: u8, b: u8|
                        stopped_at(h1, self.history(), #[trigger] config_frames(frequency, ex, a, l, b), e);
                    lemma_stop_extends(
                        h0,
                        self.history(),
                        reset_pulse() + read_frame(Register::RegVersion, VERSION_CHECK),
                        config_frames(frequency, ex, a, l, b),
                        Seq::empty(),
                        e,
                        init_frames(frequency, ex, VERSION_CHECK, a, l, b),
                    );
                }
                return Err(e);
            },
        }
        let ghost (a, l, b) = choose|a: u8, l: u8, b: u8|
            self.history() == h1 + #[trigger] config_frames(frequency, ex, a, l, b);
        assert(self.history() =~= h0 + init_frames(frequency, ex, VERSION_CHECK, a, l, b));
        Ok(())
    }

    /// The configuration part of start-up: Sleep, the carrier, the FIFO base
    /// addresses, the LNA boost, the modem timing bit, Standby, and
    /// chip-select released.
    #[verifier::spinoff_prover]
    #[verifier::rlimit(100)]
    fn configure(&mut self, frequency: u32) -> (r: Result<(), Fault<P>>)
        ensures
            r matches Err(e) ==> e.is_port_fault(),
            final(self).is_explicit() == old(self).is_explicit(),
            r is Ok ==> final(self).cached_mode() == RadioMode::Stdby && final(self).carrier()
                == frequency,
            r is Ok ==> exists|a: u8, l: u8, b: u8|
                final(self).history() == old(self).history() + #[trigger] config_frames(
                    frequency,
                    old(self).is_explicit(),
                    a,
                    l,
                    b,
                ),
            r matches Err(e) ==> exists|a: u8, l: u8, b: u8|
                stopped_at(
                    old(self).history(),
                    final(self).history(),
                    #[trigger] config_frames(frequency, old(self).is_explicit(), a, l, b),
                    e,
                ),
    {
        let ghost ex = old(self).is_explicit();
        let ghost h0 = self.history();
        assert(self.history() =~= h0 + (Seq::<Event>::empty()));
        match self.set_mode(RadioMode::Sleep) {
            Ok(()) => {},
            Err(e) => {
                proof {
                    let w = choose|w: u8| stopped_at(h0 + Seq::<Event>::empty(), self.history(), #[trigger] mode_frames(ex, w, RadioMode::Sleep), e);
                    lemma_stop_extends(h0, self.history(), (Seq::<Event>::empty()), mode_frames(ex, w, RadioMode::Sleep), (Seq::<Event>::empty() + frequency_frames(frequency) + write_frame(Register::RegFifoTxBaseAddr, 0) + write_frame(Register::RegFifoRxBaseAddr, 0) + read_frame(Register::RegLna, 0u8) + write_frame(Register::RegLna, 0u8 | 0x03) + write_frame(Register::RegModemConfig3, 0x04) + mode_frames(ex, 0u8, RadioMode::Stdby) + seq![Event::Select(true)]), e, config_frames(frequency, ex, w, 0u8, 0u8));
                }
                return Err(e);
            },
        };
        let ghost a = choose|a: u8| self.history() == h0 + Seq::<Event>::empty() + #[trigger] mode_frames(ex, a, RadioMode::Sleep);
        assert(self.history() =~= h0 + (Seq::<Event>::empty() + mode_frames(ex, a, RadioMode::Sleep)));
        match self.set_frequency(frequency) {
            Ok(()) => {},
            Err(e) => {
                proof {
                    lemma_stop_extends(h0, self.history(), (Seq::<Event>::empty() + mode_frames(ex, a, RadioMode::Sleep)), frequency_frames(frequency), (Seq::<Event>::empty() + write_frame(Register::RegFifoTxBaseAddr, 0) + write_frame(Register::RegFifoRxBaseAddr, 0) + read_frame(Register::RegLna, 0u8) + write_frame(Register::RegLna, 0u8 | 0x03) + write_frame(Register::RegModemConfig3, 0x04) + mode_frames(ex, 0u8, RadioMode::Stdby) + seq![Event::Select(true)]), e, config_frames(frequency, ex, a, 0u8, 0u8));
                }
                return Err(e);
            },
        };
        assert(self.history() =~= h0 + (Seq::<Event>::empty() + mode_frames(ex, a, RadioMode::Sleep) + frequency_frames(frequency)));
        match self.write_register(Register::RegFifoTxBaseAddr, 0) {
            Ok(()) => {},
            Err(e) => {
                proof {
                    lemma_stop_extends(h0, self.history(), (Seq::<Event>::empty() + mode_frames(ex, a, RadioMode::Sleep) + frequency_frames(frequency)), write_frame(Register::RegFifoTxBaseAddr, 0), (Seq::<Event>::empty() + write_frame(Register::RegFifoRxBaseAddr, 0) + read_frame(Register::RegLna, 0u8) + write_frame(Register::RegLna, 0u8 | 0x03) + write_frame(Register::RegModemConfig3, 0x04) + mode_frames(ex, 0u8, RadioMode::Stdby) + seq![Event::Select(true)]), e, config_frames(frequency, ex, a, 0u8, 0u8));
                }
                return Err(e);
            },
        };
        assert(self.history() =~= h0 + (Seq::<Event>::empty() + mode_frames(ex, a, RadioMode::Sleep) + frequency_frames(frequency) + write_frame(Register::RegFifoTxBaseAddr, 0)));
        match self.write_register(Register::RegFifoRxBaseAddr, 0) {
            Ok(()) => {},
            Err(e) => {
                proof {
                    lemma_stop_extends(h0, self.history(), (Seq::<Event>::empty() + mode_frames(ex, a, RadioMode::Sleep) + frequency_frames(frequency) + write_frame(Register::RegFifoTxBaseAddr, 0)), write_frame(Register::RegFifoRxBaseAddr, 0), (Seq::<Event>::empty() + read_frame(Register::RegLna, 0u8) + write_frame(Register::RegLna, 0u8 | 0x03) + write_frame(Register::RegModemConfig3, 0x04) + mode_frames(ex, 0u8, RadioMode::Stdby) + seq![Event::Select(true)]), e, config_frames(frequency, ex, a, 0u8, 0u8));
                }
                return Err(e);
            },
        };
        assert(self.history() =~= h0 + (Seq::<Event>::empty() + mode_frames(ex, a, RadioMode::Sleep) + frequency_frames(frequency) + write_frame(Register::RegFifoTxBaseAddr, 0) + write_frame(Register::RegFifoRxBaseAddr, 0)));
        let lna = match self.read_register(Register::RegLna) {
            Ok(x) => x,
            Err(e) => {
                proof {
                    let w = choose|w: u8| stopped_at(h0 + (Seq::<Event>::empty() + mode_frames(ex, a, RadioMode::Sleep) + frequency_frames(frequency) + write_frame(Register::RegFifoTxBaseAddr, 0) + write_frame(Register::RegFifoRxBaseAddr, 0)), self.history(), #[trigger] read_frame(Register::RegLna, w), e);
                    lemma_stop_extends(h0, self.history(), (Seq::<Event>::empty() + mode_frames(ex, a, RadioMode::Sleep) + frequency_frames(frequency) + write_frame(Register::RegFifoTxBaseAddr, 0) + write_frame(Register::RegFifoRxBaseAddr, 0)), read_frame(Register::RegLna, w), (Seq::<Event>::empty() + write_frame(Register::RegLna, w | 0x03) + write_frame(Register::RegModemConfig3, 0x04) + mode_frames(ex, 0u8, RadioMode::Stdby) + seq![Event::Select(true)]), e, config_frames(frequency, ex, a, w, 0u8));
                }
                return Err(e);
            },
        };
        assert(self.history() =~= h0 + (Seq::<Event>::empty() + mode_frames(ex, a, RadioMode::Sleep) + frequency_frames(frequency) + write_frame(Register::RegFifoTxBaseAddr, 0) + write_frame(Register::RegFifoRxBaseAddr, 0) + read_frame(Register::RegLna, lna)));
        match self.write_register(Register::RegLna, lna | 0x03) {
            Ok(()) => {},
            Err(e) => {
                proof {
                    lemma_stop_extends(h0, self.history(), (Seq::<Event>::empty() + mode_frames(ex, a, RadioMode::Sleep) + frequency_frames(frequency) + write_frame(Register::RegFifoTxBaseAddr, 0) + write_frame(Register::RegFifoRxBaseAddr, 0) + read_frame(Register::RegLna, lna)), write_frame(Register::RegLna, lna | 0x03), (Seq::<Event>::empty() + write_frame(Register::RegModemConfig3, 0x04) + mode_frames(ex, 0u8, RadioMode::Stdby) + seq![Event::Select(true)]), e, config_frames(frequency, ex, a, lna, 0u8));
                }
                return Err(e);
            },
        };
        assert(self.history() =~= h0 + (Seq::<Event>::empty() + mode_frames(ex, a, RadioMode::Sleep) + frequency_frames(frequency) + write_frame(Register::RegFifoTxBaseAddr, 0) + write_frame(Register::RegFifoRxBaseAddr, 0) + read_frame(Register::RegLna, lna) + write_frame(Register::RegLna, lna | 0x03)));
        match self.write_register(Register::RegModemConfig3, 0x04) {
            Ok(()) => {},
            Err(e) => {
                proof {
                    lemma_stop_extends(h0, self.history(), (Seq::<Event>::empty() + mode_frames(ex, a, RadioMode::Sleep) + frequency_frames(frequency) + write_frame(Register::RegFifoTxBaseAddr, 0) + write_frame(Register::RegFifoRxBaseAddr, 0) + read_frame(Register::RegLna, lna) + write_frame(Register::RegLna, lna | 0x03)), write_frame(Register::RegModemConfig3, 0x04), (Seq::<Event>::empty() + mode_frames(ex, 0u8, RadioMode::Stdby) + seq![Event::Select(true)]), e, config_frames(frequency, ex, a, lna, 0u8));
                }
                return Err(e);
            },
        };
        assert(self.history() =~= h0 + (Seq::<Event>::empty() + mode_frames(ex, a, RadioMode::Sleep) + frequency_frames(frequency) + write_frame(Register::RegFifoTxBaseAddr, 0) + write_frame(Register::RegFifoRxBaseAddr, 0) + read_frame(Register::RegLna, lna) + write_frame(Register::RegLna, lna | 0x03) + write_frame(Register::RegModemConfig3, 0x04)));
        match self.set_mode(RadioMode::Stdby) {
            Ok(()) => {},
            Err(e) => {
                proof {
                    let w = choose|w: u8| stopped_at(h0 + (Seq::<Event>::empty() + mode_frames(ex, a, RadioMode::Sleep) + frequency_frames(frequency) + write_frame(Register::RegFifoTxBaseAddr, 0) + write_frame(Register::RegFifoRxBaseAddr, 0) + read_frame(Register::RegLna, lna) + write_frame(Register::RegLna, lna | 0x03) + write_frame(Register::RegModemConfig3, 0x04)), self.history(), #[trigger] mode_frames(ex, w, RadioMode::Stdby), e);
                    lemma_stop_extends(h0, self.history(), (Seq::<Event>::empty() + mode_frames(ex, a, RadioMode::Sleep) + frequency_frames(frequency) + write_frame(Register::RegFifoTxBaseAddr, 0) + write_frame(Register::RegFifoRxBaseAddr, 0) + read_frame(Register::RegLna, lna) + write_frame(Register::RegLna, lna | 0x03) + write_frame(Register::RegModemConfig3, 0x04)), mode_frames(ex, w, RadioMode::Stdby), (Seq::<Event>::empty() + seq![Event::Select(true)]), e, config_frames(frequency, ex, a, lna, w));
                }
                return Err(e);
            },
        };
        let ghost b = choose|b: u8| self.history() == h0 + (Seq::<Event>::empty() + mode_frames(ex, a, RadioMode::Sleep) + frequency_frames(frequency) + write_frame(Register::RegFifoTxBaseAddr, 0) + write_frame(Register::RegFifoRxBaseAddr, 0) + read_frame(Register::RegLna, lna) + write_frame(Register::RegLna, lna | 0x03) + write_frame(Register::RegModemConfig3, 0x04)) + #[trigger] mode_frames(ex, b, RadioMode::Stdby);
        assert(self.history() =~= h0 + (Seq::<Event>::empty() + mode_frames(ex, a, RadioMode::Sleep) + frequency_frames(frequency) + write_frame(Register::RegFifoTxBaseAddr, 0) + write_frame(Register::RegFifoRxBaseAddr, 0) + read_frame(Register::RegLna, lna) + write_frame(Register::RegLna, lna | 0x03) + write_frame(Register::RegModemConfig3, 0x04) + mode_frames(ex, b, RadioMode::Stdby)));
        match self.select(true) {
            Ok(()) => {},
            Err(e) => {
                proof {
                    lemma_stop_extends(h0, self.history(), (Seq::<Event>::empty() + mode_frames(ex, a, RadioMode::Sleep) + frequency_frames(frequency) + write_frame(Register::RegFifoTxBaseAddr, 0) + write_frame(Register::RegFifoRxBaseAddr, 0) + read_frame(Register::RegLna, lna) + write_frame(Register::RegLna, lna | 0x03) + write_frame(Register::RegModemConfig3, 0x04) + mode_frames(ex, b, RadioMode::Stdby)), seq![Event::Select(true)], (Seq::<Event>::empty()), e, config_frames(frequency, ex, a, lna, b));
                }
                return Err(e);
            },
        };
        assert(self.history() =~= old(self).history() + config_frames(frequency, ex, a, lna, b));
        Ok(())
    }

    /// Everything done through the port so far.
    pub closed spec fn history(&self) -> Seq<Event> {
        self.log@
    }

    /// The carrier frequency in MHz last confirmed written.
    pub closed spec fn carrier(&self) -> u32 {
        self.frequency
    }

    /// Whether the cached header mode is explicit.
    pub closed spec fn is_explicit(&self) -> bool {
        self.explicit_header
    }

    /// The cached operating mode.
    pub closed spec fn cached_mode(&self) -> RadioMode {
        self.mode
    }

    /// Whether `self` and `other` cache the same carrier, header mode and
    /// operating mode.
    pub open spec fn same_cache(&self, other: &Self) -> bool {
        self.carrier() == other.carrier() && self.is_explicit() == other.is_explicit()
            && self.cached_mode() == other.cached_mode()
    }

    fn select(&mut self, high: bool) -> (r: Result<(), Fault<P>>)
        ensures
            r matches Err(e) ==> e.is_port_fault(),
            final(self).same_cache(old(self)),
            r is Ok ==> final(self).history() == old(self).history().push(Event::Select(high)),
            r matches Err(e) ==> stopped_at(
                old(self).history(),
                final(self).history(),
                seq![Event::Select(high)],
                e,
            ),
    {
        match self.port.set_select(high) {
            Ok(()) => {
                self.log = Ghost(self.log@.push(Event::Select(high)));
                Ok(())
            },
            Err(e) => {
                assert(self.history() =~= old(self).history() + seq![Event::Select(high)].take(0));
                Err(Error::CS(e))
            },
        }
    }

    /// Reads one register in a single framed transaction. A failed call ends
    /// it at once, chip-select left as it was.
    pub fn read_register(&mut self, reg: Register) -> (r: Result<u8, Fault<P>>)
        ensures
            final(self).same_cache(old(self)),
            r matches Err(e) ==> e.is_port_fault(),
            r matches Ok(v) ==> final(self).history() == old(self).history() + read_frame(reg, v),
            r matches Err(e) ==> exists|v: u8|
                stopped_at(old(self).history(), final(self).history(), #[trigger] read_frame(reg, v), e),
    {
        let ghost h0 = self.history();
        match self.select(false) {
            Ok(()) => {},
            Err(e) => {
                assert(self.history() =~= h0 + read_frame(reg, 0).take(0));
                assert(stopped_at(h0, self.history(), read_frame(reg, 0), e));
                return Err(e);
            },
        }
        let words: [u8; 2] = [reg.addr() & 0x7f, 0];
        let got = match self.port.transfer(words) {
            Ok(g) => g,
            Err(e) => {
                assert(self.history() =~= h0 + read_frame(reg, 0).take(1));
                let err: Fault<P> = Error::SPI(e);
                assert(stopped_at(h0, self.history(), read_frame(reg, 0), err));
                return Err(err);
            },
        };
        self.log = Ghost(self.log@.push(Event::Exchange(words[0], words[1], got[1])));
        match self.select(true) {
            Ok(()) => {},
            Err(e) => {
                assert(self.history() =~= h0 + read_frame(reg, got[1]).take(2));
                assert(stopped_at(h0, self.history(), read_frame(reg, got[1]), e));
                return Err(e);
            },
        }
        assert(self.history() =~= old(self).history() + read_frame(reg, got[1]));
        Ok(got[1])
    }

    /// Writes one register in a single framed transaction. A failed call ends
    /// it at once, chip-select left as it was.
    fn write_register(&mut self, reg: Register, byte: u8) -> (r: Result<(), Fault<P>>)
        ensures
            final(self).same_cache(old(self)),
            r matches Err(e) ==> e.is_port_fault(),
            r is Ok ==> final(self).history() == old(self).history() + write_frame(reg, byte),
            r matches Err(e) ==> stopped_at(
                old(self).history(),
                final(self).history(),
                write_frame(reg, byte),
                e,
            ),
    {
        let ghost h0 = self.history();
        match self.select(false) {
            Ok(()) => {},
            Err(e) => {
                assert(self.history() =~= h0 + write_frame(reg, byte).take(0));
                return Err(e);
            },
        }
        let words: [u8; 2] = [reg.addr() | 0x80, byte];
        match self.port.write(words) {
            Ok(()) => {},
            Err(e) => {
                assert(self.history() =~= h0 + write_frame(reg, byte).take(1));
                return Err(Error::SPI(e));
            },
        }
        self.log = Ghost(self.log@.push(Event::Send(words[0], words[1])));
        match self.select(true) {
            Ok(()) => {},
            Err(e) => {
                assert(self.history() =~= h0 + write_frame(reg, byte).take(2));
                return Err(e);
            },
        }
        assert(self.history() =~= old(self).history() + write_frame(reg, byte));
        Ok(())
    }

    /// Sets header mode `explicit` in modem configuration 1.
    fn write_header_mode(&mut self, explicit: bool) -> (r: Result<(), Fault<P>>)
        ensures
            final(self).carrier() == old(self).carrier(),
            final(self).cached_mode() == old(self).cached_mode(),
            r is Ok ==> final(self).is_explicit() == explicit,
            r is Err ==> final(self).is_explicit() == old(self).is_explicit(),
            r matches Err(e) ==> e.is_port_fault(),
            r is Ok ==> exists|v: u8|
                final(self).history() == old(self).history() + #[trigger] header_frames(
                    explicit,
                    v,
                ),
            r matches Err(e) ==> exists|v: u8|
                stopped_at(
                    old(self).history(),
                    final(self).history(),
                    #[trigger] header_frames(explicit, v),
                    e,
                ),
    {
        let ghost h0 = self.history();
        let config = match self.read_register(Register::RegModemConfig1) {
            Ok(c) => c,
            Err(e) => {
                proof {
                    let v = choose|v: u8|
                        stopped_at(h0, self.history(), #[trigger] read_frame(Register::RegModemConfig1, v), e);
                    assert(h0 + Seq::<Event>::empty() =~= h0);
                    lemma_stop_extends(
                        h0,
                        self.history(),
                        Seq::empty(),
                        read_frame(Register::RegModemConfig1, v),
                        write_frame(Register::RegModemConfig1, with_header_mode(v, explicit)),
                        e,
                        header_frames(explicit, v),
                    );
                    assert(Seq::empty() + read_frame(Register::RegModemConfig1, v) + write_frame(
                        Register::RegModemConfig1,
                        with_header_mode(v, explicit),
                    ) =~= header_frames(explicit, v));
                }
                return Err(e);
            },
        };
        let w: u8 = if explicit {
            config & 0xfe
        } else {
            config | 0x01
        };
        let ghost h1 = self.history();
        match self.write_register(Register::RegModemConfig1, w) {
            Ok(()) => {},
            Err(e) => {
                proof {
                    lemma_stop_extends(
                        h0,
                        self.history(),
                        read_frame(Register::RegModemConfig1, config),
                        write_frame(Register::RegModemConfig1, w),
                        Seq::empty(), e, header_frames(explicit, config));
                }
                return Err(e);
            },
        }
        self.explicit_header = explicit;
        assert(self.history() =~= old(self).history() + header_frames(explicit, config));
        Ok(())
    }

    /// Re-applies the cached header mode.
    fn apply_header_mode(&mut self) -> (r: Result<(), Fault<P>>)
        ensures
            final(self).same_cache(old(self)),
            r matches Err(e) ==> e.is_port_fault(),
            r is Ok ==> exists|v: u8|
                final(self).history() == old(self).history() + #[trigger] header_frames(
                    old(self).is_explicit(),
                    v,
                ),
            r matches Err(e) ==> exists|v: u8|
                stopped_at(
                    old(self).history(),
                    final(self).history(),
                    #[trigger] header_frames(old(self).is_explicit(), v),
                    e,
                ),
    {
        let explicit = self.explicit_header;
        self.write_header_mode(explicit)
    }

    /// Sets the operating mode: re-applies the cached header mode, then writes
    /// the mode with the long-range bit. The cached mode changes only once the
    /// write has succeeded.
    pub fn set_mode(&mut self, mode: RadioMode) -> (r: Result<(), Fault<P>>)
        ensures
            final(self).carrier() == old(self).carrier(),
            final(self).is_explicit() == old(self).is_explicit(),
            r is Ok ==> final(self).cached_mode() == mode,
            r is Err ==> final(self).cached_mode() == old(self).cached_mode(),
            r matches Err(e) ==> e.is_port_fault(),
            r is Ok ==> exists|v: u8|
                final(self).history() == old(self).history() + #[trigger] mode_frames(
                    old(self).is_explicit(),
                    v,
                    mode,
                ),
            r matches Err(e) ==> exists|v: u8|
                stopped_at(
                    old(self).history(),
                    final(self).history(),
                    #[trigger] mode_frames(old(self).is_explicit(), v, mode),
                    e,
                ),
    {
        let ghost ex = old(self).is_explicit();
        let ghost h0 = self.history();
        let value: u8 = 0x80u8 | mode.bits();
        match self.apply_header_mode() {
            Ok(()) => {},
            Err(e) => {
                proof {
                    let v = choose|v: u8|
                        stopped_at(h0, self.history(), #[trigger] header_frames(ex, v), e);
                    assert(h0 + Seq::<Event>::empty() =~= h0);
                    lemma_stop_extends(
                        h0,
                        self.history(),
                        Seq::empty(),
                        header_frames(ex, v),
                        write_frame(Register::RegOpMode, value),
                        e,
                        mode_frames(ex, v, mode),
                    );
                    assert(Seq::empty() + header_frames(ex, v) + write_frame(Register::RegOpMode, value)
                        =~= mode_frames(ex, v, mode));
                }
                return Err(e);
            },
        }
        let ghost mid = self.history();
        let ghost v = choose|v: u8| mid == h0 + #[trigger] header_frames(ex, v);
        match self.write_register(Register::RegOpMode, value) {
            Ok(()) => {},
            Err(e) => {
                proof {
                    lemma_stop_extends(
                        h0,
                        self.history(),
                        header_frames(ex, v),
                        write_frame(Register::RegOpMode, value),
                        Seq::empty(), e, mode_frames(ex, v, mode));
                }
                return Err(e);
            },
        }
        self.mode = mode;
        assert(self.history() =~= old(self).history() + mode_frames(ex, v, mode));
        Ok(())
    }

    /// Sets the carrier frequency in MHz: writes the three bytes of
    /// `freq * 2^19 / 32`, most significant first. The cached frequency
    /// changes only once all three writes have succeeded.
    pub fn set_frequency(&mut self, freq: u32) -> (r: Result<(), Fault<P>>)
        ensures
            final(self).is_explicit() == old(self).is_explicit(),
            final(self).cached_mode() == old(self).cached_mode(),
            r is Ok ==> final(self).carrier() == freq,
            r is Err ==> final(self).carrier() == old(self).carrier(),
            r matches Err(e) ==> e.is_port_fault(),
            r is Ok ==> final(self).history() == old(self).history() + frequency_frames(freq),
            r matches Err(e) ==> stopped_at(
                old(self).history(),
                final(self).history(),
                frequency_frames(freq),
                e,
            ),
    {
        let ghost h0 = self.history();
        let ghost m = write_frame(Register::RegFrfMsb, frf_msb(frf_of(freq)));
        let ghost d = write_frame(Register::RegFrfMid, frf_mid(frf_of(freq)));
        let ghost l = write_frame(Register::RegFrfLsb, frf_lsb(frf_of(freq)));
        let (msb, mid, lsb) = frequency_bytes(freq);
        assert(h0 + Seq::<Event>::empty() =~= h0);
        match self.write_register(Register::RegFrfMsb, msb) {
            Ok(()) => {},
            Err(e) => {
                proof {
                    lemma_stop_extends(h0, self.history(), Seq::empty(), m, d + l, e, frequency_frames(freq));
                }
                return Err(e);
            },
        }
        match self.write_register(Register::RegFrfMid, mid) {
            Ok(()) => {},
            Err(e) => {
                proof {
                    lemma_stop_extends(h0, self.history(), m, d, l, e, frequency_frames(freq));
                }
                return Err(e);
            },
        }
        assert(self.history() =~= h0 + (m + d));
        match self.write_register(Register::RegFrfLsb, lsb) {
            Ok(()) => {},
            Err(e) => {
                proof {
                    lemma_stop_extends(h0, self.history(), m + d, l, Seq::empty(), e, frequency_frames(freq));
                }
                return Err(e);
            },
        }
        self.frequency = freq;
        assert(self.history() =~= old(self).history() + frequency_frames(freq));
        Ok(())
    }

    /// Maps DIO0 to the transmit-done interrupt.
    pub fn set_dio0_tx_done(&mut self) -> (r: Result<(), Fault<P>>)
        ensures
            r matches Err(e) ==> stopped_at(
                old(self).history(),
                final(self).history(),
                write_frame(Register::RegDioMapping1, 0x40),
                e,
            ),
            final(self).same_cache(old(self)),
            r matches Err(e) ==> e.is_port_fault(),
            r is Ok ==> final(self).history() == old(self).history() + write_frame(
                Register::RegDioMapping1,
                0x40,
            ),
    {
        self.write_register(Register::RegDioMapping1, 0b01_00_00_00)
    }

    /// Returns the IRQ flags register.
    pub fn irq_flags(&mut self) -> (r: Result<u8, Fault<P>>)
        ensures
            r matches Err(e) ==> exists|v: u8|
                stopped_at(
                    old(self).history(),
                    final(self).history(),
                    #[trigger] read_frame(Register::RegIrqFlags, v),
                    e,
                ),
            final(self).same_cache(old(self)),
            r matches Err(e) ==> e.is_port_fault(),
            r matches Ok(v) ==> final(self).history() == old(self).history() + read_frame(
                Register::RegIrqFlags,
                v,
            ),
    {
        self.read_register(Register::RegIrqFlags)
    }

    /// Whether the IRQ flags report a finished transmission (bit 2).
    pub fn is_packet_ready(&mut self) -> (r: Result<bool, Fault<P>>)
        ensures
            r matches Err(e) ==> exists|v: u8|
                stopped_at(
                    old(self).history(),
                    final(self).history(),
                    #[trigger] read_frame(Register::RegIrqFlags, v),
                    e,
                ),
            final(self).same_cache(old(self)),
            r matches Err(e) ==> e.is_port_fault(),
            r matches Ok(b) ==> exists|v: u8|
                final(self).history() == old(self).history() + read_frame(Register::RegIrqFlags, v)
                    && b == (v & 0x04 != 0),
    {
        let v = self.read_register(Register::RegIrqFlags)?;
        Ok(v & 0x04 != 0)
    }

    /// Clears the IRQ flags by writing back the flags that are set.
    pub fn clear_irq(&mut self) -> (r: Result<(), Fault<P>>)
        ensures
            final(self).same_cache(old(self)),
            r matches Err(e) ==> e.is_port_fault(),
            r is Ok ==> exists|v: u8|
                final(self).history() == old(self).history() + #[trigger] clear_frames(v),
            r matches Err(e) ==> exists|v: u8|
                stopped_at(old(self).history(), final(self).history(), #[trigger] clear_frames(v), e),
    {
        let ghost h0 = self.history();
        assert(h0 =~= h0 + Seq::<Event>::empty());
        let v = match self.read_register(Register::RegIrqFlags) {
            Ok(v) => v,
            Err(e) => {
                proof {
                    let w = choose|w: u8|
                        stopped_at(h0 + Seq::<Event>::empty(), self.history(), #[trigger] read_frame(Register::RegIrqFlags, w), e);
                    lemma_stop_extends(
                        h0,
                        self.history(),
                        Seq::empty(),
                        read_frame(Register::RegIrqFlags, w),
                        write_frame(Register::RegIrqFlags, w),
                        e,
                        clear_frames(w),
                    );
                }
                return Err(e);
            },
        };
        match self.write_register(Register::RegIrqFlags, v) {
            Ok(()) => {},
            Err(e) => {
                proof {
                    lemma_stop_extends(
                        h0,
                        self.history(),
                        read_frame(Register::RegIrqFlags, v),
                        write_frame(Register::RegIrqFlags, v),
                        Seq::empty(),
                        e,
                        clear_frames(v),
                    );
                }
                return Err(e);
            },
        }
        assert(self.history() =~= old(self).history() + clear_frames(v));
        Ok(())
    }

    /// Sets the over-current protection limit in mA.
    pub fn set_ocp(&mut self, ma: u8) -> (r: Result<(), Fault<P>>)
        ensures
            r matches Err(e) ==> stopped_at(
                old(self).history(),
                final(self).history(),
                write_frame(Register::RegOcp, ocp_register(ocp_trim_of(ma))),
                e,
            ),
            final(self).same_cache(old(self)),
            r matches Err(e) ==> e.is_port_fault(),
            r is Ok ==> final(self).history() == old(self).history() + write_frame(
                Register::RegOcp,
                ocp_register(ocp_trim_of(ma)),
            ),
    {
        let trim = ocp_trim(ma);
        self.write_register(Register::RegOcp, 0x20 | (0x1f & trim))
    }

    /// Sets the transmit power in dB and the output pin, in the power-amplifier
    /// configuration register alone: 0 to 14 dB on the RFO pin (`use_rfo`),
    /// 2 to 20 dB on PA_BOOST; levels outside are clamped.
    pub fn set_tx_power(&mut self, level: u8, use_rfo: bool) -> (r: Result<(), Fault<P>>)
        ensures
            r matches Err(e) ==> stopped_at(
                old(self).history(),
                final(self).history(),
                write_frame(Register::RegPaConfig, pa_config_value(level, use_rfo)),
                e,
            ),
            final(self).same_cache(old(self)),
            r matches Err(e) ==> e.is_port_fault(),
            r is Ok ==> final(self).history() == old(self).history() + write_frame(
                Register::RegPaConfig,
                pa_config_value(level, use_rfo),
            ),
    {
        let value: u8 = if use_rfo {
            0x70 | (if level > 14 {
                14
            } else {
                level
            })
        } else if level > 17 {
            0x80 | ((if level > 20 {
                20
            } else {
                level
            }) - 5)
        } else {
            0x80 | ((if level < 2 {
                2
            } else {
                level
            }) - 2)
        };
        self.write_register(Register::RegPaConfig, value)
    }

    /// Sets the coding rate to `4/denominator`, the denominator clamped to 5..=8.
    pub fn set_coding_rate_4(&mut self, denominator: u8) -> (r: Result<(), Fault<P>>)
        ensures
            final(self).same_cache(old(self)),
            r matches Err(e) ==> e.is_port_fault(),
            r is Ok ==> exists|v: u8|
                final(self).history() == old(self).history() + #[trigger] update_frames(
                    Register::RegModemConfig1,
                    v,
                    with_coding_rate(v, denominator),
                ),
            r matches Err(e) ==> exists|v: u8|
                stopped_at(
                    old(self).history(),
                    final(self).history(),
                    #[trigger] update_frames(Register::RegModemConfig1, v, with_coding_rate(v, denominator)),
                    e,
                ),
    {
        let ghost h0 = self.history();
        assert(h0 =~= h0 + Seq::<Event>::empty());
        let v = match self.read_register(Register::RegModemConfig1) {
            Ok(v) => v,
            Err(e) => {
                proof {
                    let w = choose|w: u8|
                        stopped_at(
                            h0 + Seq::<Event>::empty(),
                            self.history(),
                            #[trigger] read_frame(Register::RegModemConfig1, w),
                            e,
                        );
                    lemma_stop_extends(
                        h0,
                        self.history(),
                        Seq::empty(),
                        read_frame(Register::RegModemConfig1, w),
                        write_frame(Register::RegModemConfig1, with_coding_rate(w, denominator)),
                        e,
                        update_frames(Register::RegModemConfig1, w, with_coding_rate(w, denominator)),
                    );
                }
                return Err(e);
            },
        };
        let w: u8 = coding_rate_config(v, denominator);
        match self.write_register(Register::RegModemConfig1, w) {
            Ok(()) => {},
            Err(e) => {
                proof {
                    lemma_stop_extends(
                        h0,
                        self.history(),
                        read_frame(Register::RegModemConfig1, v),
                        write_frame(Register::RegModemConfig1, w),
                        Seq::empty(),
                        e,
                        update_frames(Register::RegModemConfig1, v, with_coding_rate(v, denominator)),
                    );
                }
                return Err(e);
            },
        }
        assert(self.history() =~= old(self).history() + update_frames(Register::RegModemConfig1, v, with_coding_rate(v, denominator)));
        Ok(())
    }

    /// Sets the preamble length in symbols: its two low bytes, high byte first.
    pub fn set_preamble_length(&mut self, length: i64) -> (r: Result<(), Fault<P>>)
        ensures
            final(self).same_cache(old(self)),
            r matches Err(e) ==> e.is_port_fault(),
            r is Ok ==> final(self).history() == old(self).history() + preamble_frames(length),
            r matches Err(e) ==> stopped_at(
                old(self).history(),
                final(self).history(),
                preamble_frames(length),
                e,
            ),
    {
        let ghost h0 = self.history();
        assert(h0 =~= h0 + Seq::<Event>::empty());
        match self.write_register(Register::RegPreambleMsb, ((length as u64) >> 8u64) as u8) {
            Ok(()) => {},
            Err(e) => {
                proof {
                    lemma_stop_extends(
                        h0,
                        self.history(),
                        Seq::empty(),
                        write_frame(Register::RegPreambleMsb, ((length as u64) >> 8u64) as u8),
                        write_frame(Register::RegPreambleLsb, length as u8),
                        e,
                        preamble_frames(length),
                    );
                }
                return Err(e);
            },
        }
        match self.write_register(Register::RegPreambleLsb, length as u8) {
            Ok(()) => {},
            Err(e) => {
                proof {
                    lemma_stop_extends(
                        h0,
                        self.history(),
                        write_frame(Register::RegPreambleMsb, ((length as u64) >> 8u64) as u8),
                        write_frame(Register::RegPreambleLsb, length as u8),
                        Seq::empty(),
                        e,
                        preamble_frames(length),
                    );
                }
                return Err(e);
            },
        }
        assert(self.history() =~= old(self).history() + preamble_frames(length));
        Ok(())
    }

    /// Turns the CRC check on or off (bit 2 of modem configuration 2).
    pub fn set_crc(&mut self, value: bool) -> (r: Result<(), Fault<P>>)
        ensures
            final(self).same_cache(old(self)),
            r matches Err(e) ==> e.is_port_fault(),
            r is Ok ==> exists|v: u8|
                final(self).history() == old(self).history() + #[trigger] update_frames(
                    Register::RegModemConfig2,
                    v,
                    with_crc(v, value),
                ),
            r matches Err(e) ==> exists|v: u8|
                stopped_at(
                    old(self).history(),
                    final(self).history(),
                    #[trigger] update_frames(Register::RegModemConfig2, v, with_crc(v, value)),
                    e,
                ),
    {
        let ghost h0 = self.history();
        assert(h0 =~= h0 + Seq::<Event>::empty());
        let v = match self.read_register(Register::RegModemConfig2) {
            Ok(v) => v,
            Err(e) => {
                proof {
                    let w = choose|w: u8|
                        stopped_at(
                            h0 + Seq::<Event>::empty(),
                            self.history(),
                            #[trigger] read_frame(Register::RegModemConfig2, w),
                            e,
                        );
                    lemma_stop_extends(
                        h0,
                        self.history(),
                        Seq::empty(),
                        read_frame(Register::RegModemConfig2, w),
                        write_frame(Register::RegModemConfig2, with_crc(w, value)),
                        e,
                        update_frames(Register::RegModemConfig2, w, with_crc(w, value)),
                    );
                }
                return Err(e);
            },
        };
        let w: u8 = if value { v | 0x04 } else { v & 0xfb };
        match self.write_register(Register::RegModemConfig2, w) {
            Ok(()) => {},
            Err(e) => {
                proof {
                    lemma_stop_extends(
                        h0,
                        self.history(),
                        read_frame(Register::RegModemConfig2, v),
                        write_frame(Register::RegModemConfig2, w),
                        Seq::empty(),
                        e,
                        update_frames(Register::RegModemConfig2, v, with_crc(v, value)),
                    );
                }
                return Err(e);
            },
        }
        assert(self.history() =~= old(self).history() + update_frames(Register::RegModemConfig2, v, with_crc(v, value)));
        Ok(())
    }

    /// Inverts the IQ signals, or restores them.
    pub fn set_invert_iq(&mut self, value: bool) -> (r: Result<(), Fault<P>>)
        ensures
            final(self).same_cache(old(self)),
            r matches Err(e) ==> e.is_port_fault(),
            r is Ok ==> final(self).history() == old(self).history() + invert_iq_frames(value),
            r matches Err(e) ==> stopped_at(
                old(self).history(),
                final(self).history(),
                invert_iq_frames(value),
                e,
            ),
    {
        let (first, second): (u8, u8) = if value {
            (0x66, 0x19)
        } else {
            (0x27, 0x1d)
        };
        let ghost h0 = self.history();
        assert(h0 =~= h0 + Seq::<Event>::empty());
        match self.write_register(Register::RegInvertiq, first) {
            Ok(()) => {},
            Err(e) => {
                proof {
                    lemma_stop_extends(
                        h0,
                        self.history(),
                        Seq::empty(),
                        write_frame(Register::RegInvertiq, first),
                        write_frame(Register::RegInvertiq2, second),
                        e,
                        invert_iq_frames(value),
                    );
                }
                return Err(e);
            },
        }
        match self.write_register(Register::RegInvertiq2, second) {
            Ok(()) => {},
            Err(e) => {
                proof {
                    lemma_stop_extends(
                        h0,
                        self.history(),
                        write_frame(Register::RegInvertiq, first),
                        write_frame(Register::RegInvertiq2, second),
                        Seq::empty(),
                        e,
                        invert_iq_frames(value),
                    );
                }
                return Err(e);
            },
        }
        assert(self.history() =~= old(self).history() + invert_iq_frames(value));
        Ok(())
    }

    /// Returns the spreading factor held by modem configuration 2.
    pub fn get_spreading_factor(&mut self) -> (r: Result<u8, Fault<P>>)
        ensures
            r matches Err(e) ==> exists|v: u8|
                stopped_at(
                    old(self).history(),
                    final(self).history(),
                    #[trigger] read_frame(Register::RegModemConfig2, v),
                    e,
                ),
            final(self).same_cache(old(self)),
            r matches Err(e) ==> e.is_port_fault(),
            r matches Ok(sf) ==> exists|v: u8|
                final(self).history() == old(self).history() + read_frame(
                    Register::RegModemConfig2,
                    v,
                ) && sf == spreading_factor_field(v),
    {
        let v = self.read_register(Register::RegModemConfig2)?;
        let sf: u8 = v >> 4u8;
        assert(self.history() == old(self).history() + read_frame(Register::RegModemConfig2, v)
            && sf == spreading_factor_field(v));
        Ok(sf)
    }

    /// Returns the signal bandwidth in Hz held by modem configuration 1; -1
    /// for an index that the chip does not define.
    pub fn get_signal_bandwidth(&mut self) -> (r: Result<i64, Fault<P>>)
        ensures
            r matches Err(e) ==> exists|v: u8|
                stopped_at(
                    old(self).history(),
                    final(self).history(),
                    #[trigger] read_frame(Register::RegModemConfig1, v),
                    e,
                ),
            final(self).same_cache(old(self)),
            r matches Err(e) ==> e.is_port_fault(),
            r matches Ok(bw) ==> exists|v: u8|
                final(self).history() == old(self).history() + read_frame(
                    Register::RegModemConfig1,
                    v,
                ) && bw == bandwidth_hz_of(bandwidth_field(v)),
    {
        let v = self.read_register(Register::RegModemConfig1)?;
        let bw = bandwidth_hz(v >> 4u8);
        assert(self.history() == old(self).history() + read_frame(Register::RegModemConfig1, v)
            && bw == bandwidth_hz_of(bandwidth_field(v)));
        Ok(bw)
    }

    /// Returns the RSSI of the last packet in dBm: the register value less 157.
    pub fn get_packet_rssi(&mut self) -> (r: Result<i32, Fault<P>>)
        ensures
            r matches Err(e) ==> exists|v: u8|
                stopped_at(
                    old(self).history(),
                    final(self).history(),
                    #[trigger] read_frame(Register::RegPktRssiValue, v),
                    e,
                ),
            final(self).same_cache(old(self)),
            r matches Err(e) ==> e.is_port_fault(),
            r matches Ok(rssi) ==> exists|v: u8|
                final(self).history() == old(self).history() + read_frame(
                    Register::RegPktRssiValue,
                    v,
                ) && rssi == v - 157,
    {
        let v = self.read_register(Register::RegPktRssiValue)?;
        Ok(v as i32 - 157)
    }

    /// Returns the frequency error of the last packet in Hz, from the three
    /// error registers and the current bandwidth.
    pub fn get_packet_frequency_error(&mut self) -> (r: Result<i64, Fault<P>>)
        ensures
            final(self).same_cache(old(self)),
            r matches Err(e) ==> e.is_port_fault(),
            r matches Ok(hz) ==> exists|a: u8, b: u8, c: u8, m: u8|
                final(self).history() == old(self).history() + #[trigger] freq_error_frames(
                    a,
                    b,
                    c,
                    m,
                ) && hz == freq_error_hz(freq_error_raw(a, b, c), bandwidth_hz_of(bandwidth_field(m))),
            r matches Err(e) ==> exists|a: u8, b: u8, c: u8, m: u8|
                stopped_at(
                    old(self).history(),
                    final(self).history(),
                    #[trigger] freq_error_frames(a, b, c, m),
                    e,
                ),
    {
        let ghost h0 = self.history();
        assert(self.history() =~= h0 + (Seq::<Event>::empty()));
        let a = match self.read_register(Register::RegFreqErrorMsb) {
            Ok(x) => x,
            Err(e) => {
                proof {
                    let w = choose|w: u8| stopped_at(h0 + (Seq::<Event>::empty()), self.history(), #[trigger] read_frame(Register::RegFreqErrorMsb, w), e);
                    lemma_stop_extends(h0, self.history(), (Seq::<Event>::empty()), read_frame(Register::RegFreqErrorMsb, w), (Seq::<Event>::empty() + read_frame(Register::RegFreqErrorMid, 0u8) + read_frame(Register::RegFreqErrorLsb, 0u8) + read_frame(Register::RegModemConfig1, 0u8)), e, freq_error_frames(w, 0u8, 0u8, 0u8));
                }
                return Err(e);
            },
        };
        assert(self.history() =~= h0 + (Seq::<Event>::empty() + read_frame(Register::RegFreqErrorMsb, a)));
        let b = match self.read_register(Register::RegFreqErrorMid) {
            Ok(x) => x,
            Err(e) => {
                proof {
                    let w = choose|w: u8| stopped_at(h0 + (Seq::<Event>::empty() + read_frame(Register::RegFreqErrorMsb, a)), self.history(), #[trigger] read_frame(Register::RegFreqErrorMid, w), e);
                    lemma_stop_extends(h0, self.history(), (Seq::<Event>::empty() + read_frame(Register::RegFreqErrorMsb, a)), read_frame(Register::RegFreqErrorMid, w), (Seq::<Event>::empty() + read_frame(Register::RegFreqErrorLsb, 0u8) + read_frame(Register::RegModemConfig1, 0u8)), e, freq_error_frames(a, w, 0u8, 0u8));
                }
                return Err(e);
            },
        };
        assert(self.history() =~= h0 + (Seq::<Event>::empty() + read_frame(Register::RegFreqErrorMsb, a) + read_frame(Register::RegFreqErrorMid, b)));
        let c = match self.read_register(Register::RegFreqErrorLsb) {
            Ok(x) => x,
            Err(e) => {
                proof {
                    let w = choose|w: u8| stopped_at(h0 + (Seq::<Event>::empty() + read_frame(Register::RegFreqErrorMsb, a) + read_frame(Register::RegFreqErrorMid, b)), self.history(), #[trigger] read_frame(Register::RegFreqErrorLsb, w), e);
                    lemma_stop_extends(h0, self.history(), (Seq::<Event>::empty() + read_frame(Register::RegFreqErrorMsb, a) + read_frame(Register::RegFreqErrorMid, b)), read_frame(Register::RegFreqErrorLsb, w), (Seq::<Event>::empty() + read_frame(Register::RegModemConfig1, 0u8)), e, freq_error_frames(a, b, w, 0u8));
                }
                return Err(e);
            },
        };
        assert(self.history() =~= h0 + (Seq::<Event>::empty() + read_frame(Register::RegFreqErrorMsb, a) + read_frame(Register::RegFreqErrorMid, b) + read_frame(Register::RegFreqErrorLsb, c)));
        let m = match self.read_register(Register::RegModemConfig1) {
            Ok(x) => x,
            Err(e) => {
                proof {
                    let w = choose|w: u8| stopped_at(h0 + (Seq::<Event>::empty() + read_frame(Register::RegFreqErrorMsb, a) + read_frame(Register::RegFreqErrorMid, b) + read_frame(Register::RegFreqErrorLsb, c)), self.history(), #[trigger] read_frame(Register::RegModemConfig1, w), e);
                    lemma_stop_extends(h0, self.history(), (Seq::<Event>::empty() + read_frame(Register::RegFreqErrorMsb, a) + read_frame(Register::RegFreqErrorMid, b) + read_frame(Register::RegFreqErrorLsb, c)), read_frame(Register::RegModemConfig1, w), (Seq::<Event>::empty()), e, freq_error_frames(a, b, c, w));
                }
                return Err(e);
            },
        };
        let bw = bandwidth_hz(m >> 4u8);
        let hz = frequency_error(a, b, c, bw);
        assert(self.history() =~= old(self).history() + freq_error_frames(a, b, c, m));
        assert(hz == freq_error_hz(freq_error_raw(a, b, c), bandwidth_hz_of(bandwidth_field(m))));
        Ok(hz)
    }

    /// Recomputes the low-data-rate-optimization flag from the bandwidth and
    /// spreading factor that the chip holds.
    fn set_ldo_flag(&mut self) -> (r: Result<(), Fault<P>>)
        ensures
            final(self).same_cache(old(self)),
            r matches Err(e) ==> e.is_port_fault(),
            r is Ok ==> exists|c1: u8, c2: u8, c3: u8|
                final(self).history() == old(self).history() + #[trigger] low_data_rate_frames(c1, c2, c3),
            r matches Err(e) ==> exists|c1: u8, c2: u8, c3: u8|
                stopped_at(
                    old(self).history(),
                    final(self).history(),
                    #[trigger] low_data_rate_frames(c1, c2, c3),
                    e,
                ),
    {
        let ghost h0 = self.history();
        assert(self.history() =~= h0 + (Seq::<Event>::empty()));
        let c1 = match self.read_register(Register::RegModemConfig1) {
            Ok(x) => x,
            Err(e) => {
                proof {
                    let w = choose|w: u8| stopped_at(h0 + (Seq::<Event>::empty()), self.history(), #[trigger] read_frame(Register::RegModemConfig1, w), e);
                    lemma_stop_extends(h0, self.history(), (Seq::<Event>::empty()), read_frame(Register::RegModemConfig1, w), (Seq::<Event>::empty() + read_frame(Register::RegModemConfig2, 0u8) + read_frame(Register::RegModemConfig3, 0u8) + write_frame(Register::RegModemConfig3, with_low_data_rate(0u8, low_data_rate_due(bandwidth_hz_of(bandwidth_field(w)), spreading_factor_field(0u8))))), e, low_data_rate_frames(w, 0u8, 0u8));
                }
                return Err(e);
            },
        };
        let bw = bandwidth_hz(c1 >> 4u8);
        assert(self.history() =~= h0 + (Seq::<Event>::empty() + read_frame(Register::RegModemConfig1, c1)));
        let c2 = match self.read_register(Register::RegModemConfig2) {
            Ok(x) => x,
            Err(e) => {
                proof {
                    let w = choose|w: u8| stopped_at(h0 + (Seq::<Event>::empty() + read_frame(Register::RegModemConfig1, c1)), self.history(), #[trigger] read_frame(Register::RegModemConfig2, w), e);
                    lemma_stop_extends(h0, self.history(), (Seq::<Event>::empty() + read_frame(Register::RegModemConfig1, c1)), read_frame(Register::RegModemConfig2, w), (Seq::<Event>::empty() + read_frame(Register::RegModemConfig3, 0u8) + write_frame(Register::RegModemConfig3, with_low_data_rate(0u8, low_data_rate_due(bandwidth_hz_of(bandwidth_field(c1)), spreading_factor_field(w))))), e, low_data_rate_frames(c1, w, 0u8));
                }
                return Err(e);
            },
        };
        let sf: u8 = c2 >> 4u8;
        assert(c2 >> 4u8 < 16) by (bit_vector);
        let on = low_data_rate(bw, sf);
        assert(self.history() =~= h0 + (Seq::<Event>::empty() + read_frame(Register::RegModemConfig1, c1) + read_frame(Register::RegModemConfig2, c2)));
        let c3 = match self.read_register(Register::RegModemConfig3) {
            Ok(x) => x,
            Err(e) => {
                proof {
                    let w = choose|w: u8| stopped_at(h0 + (Seq::<Event>::empty() + read_frame(Register::RegModemConfig1, c1) + read_frame(Register::RegModemConfig2, c2)), self.history(), #[trigger] read_frame(Register::RegModemConfig3, w), e);
                    lemma_stop_extends(h0, self.history(), (Seq::<Event>::empty() + read_frame(Register::RegModemConfig1, c1) + read_frame(Register::RegModemConfig2, c2)), read_frame(Register::RegModemConfig3, w), (Seq::<Event>::empty() + write_frame(Register::RegModemConfig3, with_low_data_rate(w, low_data_rate_due(bandwidth_hz_of(bandwidth_field(c1)), spreading_factor_field(c2))))), e, low_data_rate_frames(c1, c2, w));
                }
                return Err(e);
            },
        };
        let w3 = set_bit(c3, 3, on);
        assert(1u8 << 3u8 == 8u8) by (bit_vector);
        assert(!8u8 == 0xf7u8) by (bit_vector);
        assert(self.history() =~= h0 + (Seq::<Event>::empty() + read_frame(Register::RegModemConfig1, c1) + read_frame(Register::RegModemConfig2, c2) + read_frame(Register::RegModemConfig3, c3)));
        match self.write_register(Register::RegModemConfig3, w3) {
            Ok(()) => {},
            Err(e) => {
                proof {
                    lemma_stop_extends(h0, self.history(), (Seq::<Event>::empty() + read_frame(Register::RegModemConfig1, c1) + read_frame(Register::RegModemConfig2, c2) + read_frame(Register::RegModemConfig3, c3)), write_frame(Register::RegModemConfig3, with_low_data_rate(c3, low_data_rate_due(bandwidth_hz_of(bandwidth_field(c1)), spreading_factor_field(c2)))), (Seq::<Event>::empty()), e, low_data_rate_frames(c1, c2, c3));
                }
                return Err(e);
            },
        };
        assert(self.history() =~= old(self).history() + low_data_rate_frames(c1, c2, c3));
        Ok(())
    }

    /// Sets the spreading factor, clamped to 6..=12: the detection constants
    /// for it, the high nibble of modem configuration 2, then the
    /// low-data-rate-optimization flag.
    pub fn set_spreading_factor(&mut self, sf: u8) -> (r: Result<(), Fault<P>>)
        ensures
            final(self).same_cache(old(self)),
            r matches Err(e) ==> e.is_port_fault(),
            r is Ok ==> exists|v: u8, c1: u8, c2: u8, c3: u8|
                final(self).history() == old(self).history() + #[trigger] spreading_factor_frames(
                    sf,
                    v,
                    c1,
                    c2,
                    c3,
                ),
            r matches Err(e) ==> exists|v: u8, c1: u8, c2: u8, c3: u8|
                stopped_at(
                    old(self).history(),
                    final(self).history(),
                    #[trigger] spreading_factor_frames(sf, v, c1, c2, c3),
                    e,
                ),
    {
        let c = spreading_factor_clamp(sf);
        let (d1, d2): (u8, u8) = if c == 6 {
            (0xc5, 0x0c)
        } else {
            (0xc3, 0x0a)
        };
        assert(d1 == detection_values(clamp_spreading_factor(sf)).0);
        assert(d2 == detection_values(clamp_spreading_factor(sf)).1);
        let ghost h0 = self.history();
        assert(self.history() =~= h0 + (Seq::<Event>::empty()));
        match self.write_register(Register::RegDetectionOptimize, d1) {
            Ok(()) => {},
            Err(e) => {
                proof {
                    lemma_stop_extends(h0, self.history(), (Seq::<Event>::empty()), write_frame(Register::RegDetectionOptimize, detection_values(clamp_spreading_factor(sf)).0), (Seq::<Event>::empty() + write_frame(Register::RegDetectionThreshold, detection_values(clamp_spreading_factor(sf)).1) + read_frame(Register::RegModemConfig2, 0u8) + write_frame(Register::RegModemConfig2, with_spreading_factor(0u8, clamp_spreading_factor(sf))) + low_data_rate_frames(0u8, 0u8, 0u8)), e, spreading_factor_frames(sf, 0u8, 0u8, 0u8, 0u8));
                }
                return Err(e);
            },
        };
        assert(self.history() =~= h0 + (Seq::<Event>::empty() + write_frame(Register::RegDetectionOptimize, detection_values(clamp_spreading_factor(sf)).0)));
        match self.write_register(Register::RegDetectionThreshold, d2) {
            Ok(()) => {},
            Err(e) => {
                proof {
                    lemma_stop_extends(h0, self.history(), (Seq::<Event>::empty() + write_frame(Register::RegDetectionOptimize, detection_values(clamp_spreading_factor(sf)).0)), write_frame(Register::RegDetectionThreshold, detection_values(clamp_spreading_factor(sf)).1), (Seq::<Event>::empty() + read_frame(Register::RegModemConfig2, 0u8) + write_frame(Register::RegModemConfig2, with_spreading_factor(0u8, clamp_spreading_factor(sf))) + low_data_rate_frames(0u8, 0u8, 0u8)), e, spreading_factor_frames(sf, 0u8, 0u8, 0u8, 0u8));
                }
                return Err(e);
            },
        };
        assert(self.history() =~= h0 + (Seq::<Event>::empty() + write_frame(Register::RegDetectionOptimize, detection_values(clamp_spreading_factor(sf)).0) + write_frame(Register::RegDetectionThreshold, detection_values(clamp_spreading_factor(sf)).1)));
        let v = match self.read_register(Register::RegModemConfig2) {
            Ok(x) => x,
            Err(e) => {
                proof {
                    let w = choose|w: u8| stopped_at(h0 + (Seq::<Event>::empty() + write_frame(Register::RegDetectionOptimize, detection_values(clamp_spreading_factor(sf)).0) + write_frame(Register::RegDetectionThreshold, detection_values(clamp_spreading_factor(sf)).1)), self.history(), #[trigger] read_frame(Register::RegModemConfig2, w), e);
                    lemma_stop_extends(h0, self.history(), (Seq::<Event>::empty() + write_frame(Register::RegDetectionOptimize, detection_values(clamp_spreading_factor(sf)).0) + write_frame(Register::RegDetectionThreshold, detection_values(clamp_spreading_factor(sf)).1)), read_frame(Register::RegModemConfig2, w), (Seq::<Event>::empty() + write_frame(Register::RegModemConfig2, with_spreading_factor(w, clamp_spreading_factor(sf))) + low_data_rate_frames(0u8, 0u8, 0u8)), e, spreading_factor_frames(sf, w, 0u8, 0u8, 0u8));
                }
                return Err(e);
            },
        };
        assert(self.history() =~= h0 + (Seq::<Event>::empty() + write_frame(Register::RegDetectionOptimize, detection_values(clamp_spreading_factor(sf)).0) + write_frame(Register::RegDetectionThreshold, detection_values(clamp_spreading_factor(sf)).1) + read_frame(Register::RegModemConfig2, v)));
        match self.write_register(Register::RegModemConfig2, (v & 0x0f) | ((c << 4u8) & 0xf0)) {
            Ok(()) => {},
            Err(e) => {
                proof {
                    lemma_stop_extends(h0, self.history(), (Seq::<Event>::empty() + write_frame(Register::RegDetectionOptimize, detection_values(clamp_spreading_factor(sf)).0) + write_frame(Register::RegDetectionThreshold, detection_values(clamp_spreading_factor(sf)).1) + read_frame(Register::RegModemConfig2, v)), write_frame(Register::RegModemConfig2, with_spreading_factor(v, clamp_spreading_factor(sf))), (Seq::<Event>::empty() + low_data_rate_frames(0u8, 0u8, 0u8)), e, spreading_factor_frames(sf, v, 0u8, 0u8, 0u8));
                }
                return Err(e);
            },
        };
        let ghost hl = self.history();
        assert(hl =~= h0 + (Seq::<Event>::empty() + write_frame(Register::RegDetectionOptimize, detection_values(clamp_spreading_factor(sf)).0) + write_frame(Register::RegDetectionThreshold, detection_values(clamp_spreading_factor(sf)).1) + read_frame(Register::RegModemConfig2, v) + write_frame(Register::RegModemConfig2, with_spreading_factor(v, clamp_spreading_factor(sf)))));
        match self.set_ldo_flag() {
            Ok(()) => {},
            Err(e) => {
                proof {
                    let (c1, c2, c3) = choose|c1: u8, c2: u8, c3: u8|
                        stopped_at(hl, self.history(), #[trigger] low_data_rate_frames(c1, c2, c3), e);
                    lemma_stop_extends(h0, self.history(), (Seq::<Event>::empty() + write_frame(Register::RegDetectionOptimize, detection_values(clamp_spreading_factor(sf)).0) + write_frame(Register::RegDetectionThreshold, detection_values(clamp_spreading_factor(sf)).1) + read_frame(Register::RegModemConfig2, v) + write_frame(Register::RegModemConfig2, with_spreading_factor(v, clamp_spreading_factor(sf)))), low_data_rate_frames(c1, c2, c3), Seq::empty(), e, spreading_factor_frames(sf, v, c1, c2, c3));
                }
                return Err(e);
            },
        }
        let ghost (c1, c2, c3) = choose|c1: u8, c2: u8, c3: u8|
            self.history() == hl + #[trigger] low_data_rate_frames(c1, c2, c3);
        assert(self.history() =~= old(self).history() + spreading_factor_frames(sf, v, c1, c2, c3));
        Ok(())
    }

    /// Sets the signal bandwidth in Hz: its index in the high nibble of modem
    /// configuration 1 (9 for a value the chip does not support), then the
    /// low-data-rate-optimization flag.
    pub fn set_signal_bandwidth(&mut self, sbw: i64) -> (r: Result<(), Fault<P>>)
        ensures
            final(self).same_cache(old(self)),
            r matches Err(e) ==> e.is_port_fault(),
            r is Ok ==> exists|v: u8, c1: u8, c2: u8, c3: u8|
                final(self).history() == old(self).history() + #[trigger] bandwidth_frames(
                    sbw,
                    v,
                    c1,
                    c2,
                    c3,
                ),
            r matches Err(e) ==> exists|v: u8, c1: u8, c2: u8, c3: u8|
                stopped_at(
                    old(self).history(),
                    final(self).history(),
                    #[trigger] bandwidth_frames(sbw, v, c1, c2, c3),
                    e,
                ),
    {
        let bw = bandwidth_index(sbw);
        let ghost h0 = self.history();
        assert(self.history() =~= h0 + (Seq::<Event>::empty()));
        let v = match self.read_register(Register::RegModemConfig1) {
            Ok(x) => x,
            Err(e) => {
                proof {
                    let w = choose|w: u8| stopped_at(h0 + (Seq::<Event>::empty()), self.history(), #[trigger] read_frame(Register::RegModemConfig1, w), e);
                    lemma_stop_extends(h0, self.history(), (Seq::<Event>::empty()), read_frame(Register::RegModemConfig1, w), (Seq::<Event>::empty() + write_frame(Register::RegModemConfig1, with_bandwidth(w, bandwidth_index_of(sbw))) + low_data_rate_frames(0u8, 0u8, 0u8)), e, bandwidth_frames(sbw, w, 0u8, 0u8, 0u8));
                }
                return Err(e);
            },
        };
        assert(self.history() =~= h0 + (Seq::<Event>::empty() + read_frame(Register::RegModemConfig1, v)));
        match self.write_register(Register::RegModemConfig1, (v & 0x0f) | (bw << 4u8)) {
            Ok(()) => {},
            Err(e) => {
                proof {
                    lemma_stop_extends(h0, self.history(), (Seq::<Event>::empty() + read_frame(Register::RegModemConfig1, v)), write_frame(Register::RegModemConfig1, with_bandwidth(v, bandwidth_index_of(sbw))), (Seq::<Event>::empty() + low_data_rate_frames(0u8, 0u8, 0u8)), e, bandwidth_frames(sbw, v, 0u8, 0u8, 0u8));
                }
                return Err(e);
            },
        };
        let ghost hl = self.history();
        assert(hl =~= h0 + (Seq::<Event>::empty() + read_frame(Register::RegModemConfig1, v) + write_frame(Register::RegModemConfig1, with_bandwidth(v, bandwidth_index_of(sbw)))));
        match self.set_ldo_flag() {
            Ok(()) => {},
            Err(e) => {
                proof {
                    let (c1, c2, c3) = choose|c1: u8, c2: u8, c3: u8|
                        stopped_at(hl, self.history(), #[trigger] low_data_rate_frames(c1, c2, c3), e);
                    lemma_stop_extends(h0, self.history(), (Seq::<Event>::empty() + read_frame(Register::RegModemConfig1, v) + write_frame(Register::RegModemConfig1, with_bandwidth(v, bandwidth_index_of(sbw)))), low_data_rate_frames(c1, c2, c3), Seq::empty(), e, bandwidth_frames(sbw, v, c1, c2, c3));
                }
                return Err(e);
            },
        }
        let ghost (c1, c2, c3) = choose|c1: u8, c2: u8, c3: u8|
            self.history() == hl + #[trigger] low_data_rate_frames(c1, c2, c3);
        assert(self.history() =~= old(self).history() + bandwidth_frames(sbw, v, c1, c2, c3));
        Ok(())
    }

    /// Sends a packet of at most 255 bytes: Standby, header mode, IRQ flags
    /// cleared, FIFO pointer and payload length zeroed, the length byte and
    /// the payload written to the FIFO, then Transmit. It does not wait for
    /// the transmission to end. A failed call ends it at once; the cached mode
    /// is then Standby if the switch to Standby went through.
    #[verifier::spinoff_prover]
    #[verifier::rlimit(100)]
    pub fn transmit_payload(&mut self, payload: &heapless::Vec<u8, 255>) -> (r: Result<(), Fault<P>>)
        ensures
            final(self).carrier() == old(self).carrier(),
            final(self).is_explicit() == old(self).is_explicit(),
            r matches Err(e) ==> e.is_port_fault(),
            r is Ok ==> final(self).cached_mode() == RadioMode::Tx,
            r is Ok ==> exists|v1: u8, v2: u8, v3: u8|
                final(self).history() == old(self).history() + #[trigger] transmit_frames(
                    old(self).is_explicit(),
                    v1,
                    v2,
                    v3,
                    payload_items(*payload),
                ),
            r matches Err(e) ==> exists|v1: u8, v2: u8, v3: u8|
                stopped_at(
                    old(self).history(),
                    final(self).history(),
                    #[trigger] transmit_frames(
                        old(self).is_explicit(),
                        v1,
                        v2,
                        v3,
                        payload_items(*payload),
                    ),
                    e,
                ),
            r is Err ==> final(self).cached_mode() == (if final(self).history().len()
                >= old(self).history().len() + 9 {
                RadioMode::Stdby
            } else {
                old(self).cached_mode()
            }),
    {
        let ghost ex = old(self).is_explicit();
        let ghost h0 = self.history();
        let bytes = payload_slice(payload);
        let n: usize = bytes.len();
        assert(h0 =~= h0 + Seq::<Event>::empty());
        match self.set_mode(RadioMode::Stdby) {
            Ok(()) => {},
            Err(e) => {
                proof {
                    let w = choose|w: u8| stopped_at(h0 + Seq::<Event>::empty(), self.history(), #[trigger] mode_frames(ex, w, RadioMode::Stdby), e);
                    lemma_stop_extends(h0, self.history(), (Seq::<Event>::empty()), mode_frames(ex, w, RadioMode::Stdby), (Seq::<Event>::empty() + header_frames(ex, 0u8) + write_frame(Register::RegIrqFlags, 0) + write_frame(Register::RegFifoAddrPtr, 0) + write_frame(Register::RegPayloadLength, 0) + write_frame(Register::RegFifo, bytes@.len() as u8) + fifo_write_frames(bytes@) + mode_frames(ex, 0u8, RadioMode::Tx)), e, transmit_frames(ex, w, 0u8, 0u8, bytes@));
                }
                return Err(e);
            },
        }
        let ghost v1 = choose|v: u8| self.history() == h0 + #[trigger] mode_frames(ex, v, RadioMode::Stdby);
        assert(self.history().len() == h0.len() + 9);
        assert(self.history() =~= h0 + (Seq::<Event>::empty() + mode_frames(ex, v1, RadioMode::Stdby)));
        match self.apply_header_mode() {
            Ok(()) => {},
            Err(e) => {
                proof {
                    let w = choose|w: u8| stopped_at(h0 + (Seq::<Event>::empty() + mode_frames(ex, v1, RadioMode::Stdby)), self.history(), #[trigger] header_frames(ex, w), e);
                    lemma_stop_extends(h0, self.history(), (Seq::<Event>::empty() + mode_frames(ex, v1, RadioMode::Stdby)), header_frames(ex, w), (Seq::<Event>::empty() + write_frame(Register::RegIrqFlags, 0) + write_frame(Register::RegFifoAddrPtr, 0) + write_frame(Register::RegPayloadLength, 0) + write_frame(Register::RegFifo, bytes@.len() as u8) + fifo_write_frames(bytes@) + mode_frames(ex, 0u8, RadioMode::Tx)), e, transmit_frames(ex, v1, w, 0u8, bytes@));
                }
                return Err(e);
            },
        }
        let ghost v2 = choose|v: u8| self.history() == h0 + (Seq::<Event>::empty() + mode_frames(ex, v1, RadioMode::Stdby)) + #[trigger] header_frames(ex, v);
        assert(self.history() =~= h0 + (Seq::<Event>::empty() + mode_frames(ex, v1, RadioMode::Stdby) + header_frames(ex, v2)));
        match self.write_register(Register::RegIrqFlags, 0) {
            Ok(()) => {},
            Err(e) => {
                proof {
                    lemma_stop_extends(h0, self.history(), (Seq::<Event>::empty() + mode_frames(ex, v1, RadioMode::Stdby) + header_frames(ex, v2)), write_frame(Register::RegIrqFlags, 0), (Seq::<Event>::empty() + write_frame(Register::RegFifoAddrPtr, 0) + write_frame(Register::RegPayloadLength, 0) + write_frame(Register::RegFifo, bytes@.len() as u8) + fifo_write_frames(bytes@) + mode_frames(ex, 0u8, RadioMode::Tx)), e, transmit_frames(ex, v1, v2, 0u8, bytes@));
                }
                return Err(e);
            },
        }
        assert(self.history() =~= h0 + (Seq::<Event>::empty() + mode_frames(ex, v1, RadioMode::Stdby) + header_frames(ex, v2) + write_frame(Register::RegIrqFlags, 0)));
        match self.write_register(Register::RegFifoAddrPtr, 0) {
            Ok(()) => {},
            Err(e) => {
                proof {
                    lemma_stop_extends(h0, self.history(), (Seq::<Event>::empty() + mode_frames(ex, v1, RadioMode::Stdby) + header_frames(ex, v2) + write_frame(Register::RegIrqFlags, 0)), write_frame(Register::RegFifoAddrPtr, 0), (Seq::<Event>::empty() + write_frame(Register::RegPayloadLength, 0) + write_frame(Register::RegFifo, bytes@.len() as u8) + fifo_write_frames(bytes@) + mode_frames(ex, 0u8, RadioMode::Tx)), e, transmit_frames(ex, v1, v2, 0u8, bytes@));
                }
                return Err(e);
            },
        }
        assert(self.history() =~= h0 + (Seq::<Event>::empty() + mode_frames(ex, v1, RadioMode::Stdby) + header_frames(ex, v2) + write_frame(Register::RegIrqFlags, 0) + write_frame(Register::RegFifoAddrPtr, 0)));
        match self.write_register(Register::RegPayloadLength, 0) {
            Ok(()) => {},
            Err(e) => {
                proof {
                    lemma_stop_extends(h0, self.history(), (Seq::<Event>::empty() + mode_frames(ex, v1, RadioMode::Stdby) + header_frames(ex, v2) + write_frame(Register::RegIrqFlags, 0) + write_frame(Register::RegFifoAddrPtr, 0)), write_frame(Register::RegPayloadLength, 0), (Seq::<Event>::empty() + write_frame(Register::RegFifo, bytes@.len() as u8) + fifo_write_frames(bytes@) + mode_frames(ex, 0u8, RadioMode::Tx)), e, transmit_frames(ex, v1, v2, 0u8, bytes@));
                }
                return Err(e);
            },
        }
        assert(self.history() =~= h0 + (Seq::<Event>::empty() + mode_frames(ex, v1, RadioMode::Stdby) + header_frames(ex, v2) + write_frame(Register::RegIrqFlags, 0) + write_frame(Register::RegFifoAddrPtr, 0) + write_frame(Register::RegPayloadLength, 0)));
        match self.write_register(Register::RegFifo, n as u8) {
            Ok(()) => {},
            Err(e) => {
                proof {
                    lemma_stop_extends(h0, self.history(), (Seq::<Event>::empty() + mode_frames(ex, v1, RadioMode::Stdby) + header_frames(ex, v2) + write_frame(Register::RegIrqFlags, 0) + write_frame(Register::RegFifoAddrPtr, 0) + write_frame(Register::RegPayloadLength, 0)), write_frame(Register::RegFifo, bytes@.len() as u8), (Seq::<Event>::empty() + fifo_write_frames(bytes@) + mode_frames(ex, 0u8, RadioMode::Tx)), e, transmit_frames(ex, v1, v2, 0u8, bytes@));
                }
                return Err(e);
            },
        }
        let ghost h3 = self.history();
        assert(h3 =~= h0 + (Seq::<Event>::empty() + mode_frames(ex, v1, RadioMode::Stdby) + header_frames(ex, v2) + write_frame(Register::RegIrqFlags, 0) + write_frame(Register::RegFifoAddrPtr, 0) + write_frame(Register::RegPayloadLength, 0) + write_frame(Register::RegFifo, bytes@.len() as u8)));
        let mut i: usize = 0;
        while i < n
            invariant
                n == bytes@.len(),
                bytes@ == payload_items(*payload),
                i <= n,
                ex == old(self).is_explicit(),
                h0 == old(self).history(),
                self.carrier() == old(self).carrier(),
                self.is_explicit() == ex,
                self.cached_mode() == RadioMode::Stdby,
                h3.len() >= h0.len() + 9,
                h3 == h0 + (Seq::<Event>::empty() + mode_frames(ex, v1, RadioMode::Stdby) + header_frames(ex, v2) + write_frame(Register::RegIrqFlags, 0) + write_frame(Register::RegFifoAddrPtr, 0) + write_frame(Register::RegPayloadLength, 0) + write_frame(Register::RegFifo, bytes@.len() as u8)),
                self.history() == h3 + fifo_write_frames(bytes@.subrange(0, i as int)),
            decreases n - i,
        {
            let b = bytes[i];
            let ghost hi = self.history();
            proof {
                let s = bytes@.subrange(0, i as int + 1);
                assert(s.drop_last() =~= bytes@.subrange(0, i as int));
                assert(s.last() == b);
            }
            match self.write_register(Register::RegFifo, b) {
                Ok(()) => {},
                Err(e) => {
                    proof {
                        lemma_fifo_write_split(bytes@, i as int + 1);
                        let pre = bytes@.subrange(0, i as int);
                        let post = bytes@.subrange(i as int + 1, n as int);
                        let s1 = bytes@.subrange(0, i as int + 1);
                        assert(s1.drop_last() =~= pre);
                        assert(fifo_write_frames(s1) == fifo_write_frames(pre) + write_frame(
                            Register::RegFifo,
                            b,
                        ));
                        assert(bytes@.len() == n);
                        assert(hi =~= h0 + ((Seq::<Event>::empty() + mode_frames(ex, v1, RadioMode::Stdby) + header_frames(ex, v2) + write_frame(Register::RegIrqFlags, 0) + write_frame(Register::RegFifoAddrPtr, 0) + write_frame(Register::RegPayloadLength, 0) + write_frame(Register::RegFifo, bytes@.len() as u8)) + fifo_write_frames(pre)));
                        lemma_stop_extends(
                            h0,
                            self.history(),
                            (Seq::<Event>::empty() + mode_frames(ex, v1, RadioMode::Stdby) + header_frames(ex, v2) + write_frame(Register::RegIrqFlags, 0) + write_frame(Register::RegFifoAddrPtr, 0) + write_frame(Register::RegPayloadLength, 0) + write_frame(Register::RegFifo, bytes@.len() as u8)) + fifo_write_frames(pre),
                            write_frame(Register::RegFifo, b),
                            fifo_write_frames(post) + mode_frames(ex, 0u8, RadioMode::Tx),
                            e,
                            transmit_frames(ex, v1, v2, 0u8, bytes@),
                        );
                    }
                    return Err(e);
                },
            }
            i = i + 1;
        }
        assert(bytes@.subrange(0, n as int) =~= bytes@);
        assert(self.history() =~= h0 + (Seq::<Event>::empty() + mode_frames(ex, v1, RadioMode::Stdby) + header_frames(ex, v2) + write_frame(Register::RegIrqFlags, 0) + write_frame(Register::RegFifoAddrPtr, 0) + write_frame(Register::RegPayloadLength, 0) + write_frame(Register::RegFifo, bytes@.len() as u8) + fifo_write_frames(bytes@)));
        match self.set_mode(RadioMode::Tx) {
            Ok(()) => {},
            Err(e) => {
                proof {
                    let w = choose|w: u8| stopped_at(h0 + (Seq::<Event>::empty() + mode_frames(ex, v1, RadioMode::Stdby) + header_frames(ex, v2) + write_frame(Register::RegIrqFlags, 0) + write_frame(Register::RegFifoAddrPtr, 0) + write_frame(Register::RegPayloadLength, 0) + write_frame(Register::RegFifo, bytes@.len() as u8) + fifo_write_frames(bytes@)), self.history(), #[trigger] mode_frames(ex, w, RadioMode::Tx), e);
                    lemma_stop_extends(h0, self.history(), (Seq::<Event>::empty() + mode_frames(ex, v1, RadioMode::Stdby) + header_frames(ex, v2) + write_frame(Register::RegIrqFlags, 0) + write_frame(Register::RegFifoAddrPtr, 0) + write_frame(Register::RegPayloadLength, 0) + write_frame(Register::RegFifo, bytes@.len() as u8) + fifo_write_frames(bytes@)), mode_frames(ex, w, RadioMode::Tx), (Seq::<Event>::empty()), e, transmit_frames(ex, v1, v2, w, bytes@));
                }
                return Err(e);
            },
        }
        let ghost v3 = choose|v: u8| self.history() == h0 + (Seq::<Event>::empty() + mode_frames(ex, v1, RadioMode::Stdby) + header_frames(ex, v2) + write_frame(Register::RegIrqFlags, 0) + write_frame(Register::RegFifoAddrPtr, 0) + write_frame(Register::RegPayloadLength, 0) + write_frame(Register::RegFifo, bytes@.len() as u8) + fifo_write_frames(bytes@)) + #[trigger] mode_frames(ex, v, RadioMode::Tx);
        assert(self.history() =~= old(self).history() + transmit_frames(ex, v1, v2, v3, bytes@));
        Ok(())
    }

    /// Looks once at the IRQ flags. When they report a finished reception,
    /// clears them and returns the received-byte count; otherwise `None`.
    pub fn check_rx_done(&mut self) -> (r: Result<Option<usize>, Fault<P>>)
        ensures
            final(self).same_cache(old(self)),
            r matches Err(e) ==> e.is_port_fault(),
            r is Err ==> extends(final(self).history(), old(self).history()),
            r matches Ok(None) ==> exists|f: u8|
                !rx_done(f) && final(self).history() == old(self).history() + read_frame(
                    Register::RegIrqFlags,
                    f,
                ),
            r matches Ok(Some(n)) ==> n < 256 && exists|f: u8, c: u8|
                rx_done(f) && final(self).history() == old(self).history() + #[trigger] ready_frames(
                    f,
                    c,
                    n as u8,
                ),
    {
        let ghost h0 = self.history();
        let f = match self.read_register(Register::RegIrqFlags) {
            Ok(f) => f,
            Err(e) => {
                proof {
                    let w = choose|w: u8|
                        stopped_at(h0, self.history(), #[trigger] read_frame(Register::RegIrqFlags, w), e);
                    lemma_stopped_extends(h0, self.history(), read_frame(Register::RegIrqFlags, w), e);
                }
                return Err(e);
            },
        };
        let ready = get_bit(f, 6);
        assert(1u8 << 6u8 == 0x40u8) by (bit_vector);
        assert(ready == rx_done(f));
        if ready {
            let ghost h1 = self.history();
            match self.clear_irq() {
                Ok(()) => {},
                Err(e) => {
                    proof {
                        let w = choose|w: u8| stopped_at(h1, self.history(), #[trigger] clear_frames(w), e);
                        lemma_stopped_extends(h1, self.history(), clear_frames(w), e);
                        assert(h1.subrange(0, h0.len() as int) =~= h0);
                        lemma_extends_trans(self.history(), h1, h0);
                    }
                    return Err(e);
                },
            }
            let ghost c = choose|c: u8| self.history() == h1 + #[trigger] clear_frames(c);
            let ghost h2 = self.history();
            let n = match self.read_register(Register::RegRxNbBytes) {
                Ok(n) => n,
                Err(e) => {
                    proof {
                        let w = choose|w: u8|
                            stopped_at(h2, self.history(), #[trigger] read_frame(Register::RegRxNbBytes, w), e);
                        lemma_stopped_extends(h2, self.history(), read_frame(Register::RegRxNbBytes, w), e);
                        assert(h2.subrange(0, h0.len() as int) =~= h0);
                        lemma_extends_trans(self.history(), h2, h0);
                    }
                    return Err(e);
                },
            };
            assert(self.history() =~= old(self).history() + ready_frames(f, c, n));
            assert(n as usize as u8 == n);
            assert(rx_done(f) && self.history() == old(self).history() + ready_frames(
                f,
                c,
                (n as usize) as u8,
            ));
            Ok(Some(n as usize))
        } else {
            assert(!rx_done(f) && self.history() == old(self).history() + read_frame(
                Register::RegIrqFlags,
                f,
            ));
            Ok(None)
        }
    }

    /// Waits for a packet in continuous receive mode, looking at the IRQ
    /// flags every millisecond, at most `timeout_ms` times after the first
    /// look. Returns the received-byte count, or `Uninformative` when time
    /// runs out.
    #[verifier::spinoff_prover]
    pub fn poll_irq(&mut self, timeout_ms: i32) -> (r: Result<usize, Fault<P>>)
        ensures
            final(self).carrier() == old(self).carrier(),
            final(self).is_explicit() == old(self).is_explicit(),
            r matches Err(e) ==> e.is_port_fault() || e is Uninformative,
            !(r matches Err(e) && e.is_port_fault()) ==> final(self).cached_mode()
                == RadioMode::RxContinuous,
            r matches Err(e) ==> (e.is_port_fault() ==> (final(self).cached_mode() == old(
                self,
            ).cached_mode() && exists|v: u8|
                stopped_at(
                    old(self).history(),
                    final(self).history(),
                    #[trigger] mode_frames(old(self).is_explicit(), v, RadioMode::RxContinuous),
                    e,
                )) || (final(self).cached_mode() == RadioMode::RxContinuous && exists|v: u8|
                extends(
                    final(self).history(),
                    old(self).history() + #[trigger] mode_frames(
                        old(self).is_explicit(),
                        v,
                        RadioMode::RxContinuous,
                    ),
                ))),
            r matches Ok(n) ==> n < 256 && received_within(
                old(self).history(),
                final(self).history(),
                old(self).is_explicit(),
                timeout_ms,
                n as u8,
            ),
            r matches Err(e) && e is Uninformative ==> timed_out(
                old(self).history(),
                final(self).history(),
                old(self).is_explicit(),
                timeout_ms,
            ),
    {
        let ghost e = old(self).is_explicit();
        let ghost h0 = self.history();
        self.set_mode(RadioMode::RxContinuous)?;
        let ghost h1 = self.history();
        let ghost v = choose|v: u8| h1 == h0 + mode_frames(e, v, RadioMode::RxContinuous);
        let mut count: i32 = 0;
        let ghost mut idle: Seq<u8> = Seq::empty();
        loop
            invariant
                0 <= count,
                count as int == idle.len(),
                count == 0 || count <= timeout_ms,
                all_idle(idle),
                e == old(self).is_explicit(),
                h0 == old(self).history(),
                self.carrier() == old(self).carrier(),
                self.is_explicit() == e,
                self.cached_mode() == RadioMode::RxContinuous,
                h1 == h0 + mode_frames(e, v, RadioMode::RxContinuous),
                self.history() == h1 + idle_frames(idle),
            decreases (if timeout_ms > count {
                timeout_ms - count
            } else {
                0
            }),
        {
            let ghost h2 = self.history();
            let found = match self.check_rx_done() {
                Ok(x) => x,
                Err(err) => {
                    proof {
                        assert(h2.subrange(0, h1.len() as int) =~= h1);
                        lemma_extends_trans(self.history(), h2, h1);
                    }
                    return Err(err);
                },
            };
            match found {
                Some(n) => {
                    let ghost (f, c) = choose|f: u8, c: u8|
                        rx_done(f) && self.history() == h2 + #[trigger] ready_frames(f, c, n as u8);
                    assert(self.history() =~= old(self).history() + received_frames(
                        e,
                        v,
                        idle,
                        f,
                        c,
                        n as u8,
                    ));
                    assert(received_within(
                        old(self).history(),
                        self.history(),
                        e,
                        timeout_ms,
                        n as u8,
                    ));
                    return Ok(n);
                },
                None => {
                    let ghost f = choose|f: u8|
                        !rx_done(f) && self.history() == h2 + read_frame(Register::RegIrqFlags, f);
                    if count >= timeout_ms {
                        assert(self.history() =~= old(self).history() + timed_out_frames(
                            e,
                            v,
                            idle,
                            f,
                        ));
                        assert(timed_out(old(self).history(), self.history(), e, timeout_ms));
                        return Err(Error::Uninformative);
                    }
                    count = count + 1;
                    self.pause(1);
                    proof {
                        let next = idle.push(f);
                        assert(next.drop_last() =~= idle);
                        assert(self.history() =~= h1 + idle_frames(next));
                        idle = next;
                    }
                },
            }
        }
    }

    /// Reads the received packet out of the FIFO into a 255-byte buffer: the
    /// first received-byte-count bytes hold the packet, the rest are zero.
    pub fn read_packet(&mut self) -> (r: Result<[u8; 255], Fault<P>>)
        ensures
            final(self).same_cache(old(self)),
            r matches Err(e) ==> e.is_port_fault(),
            r matches Ok(buf) ==> exists|c: u8, a: u8, bytes: Seq<u8>|
                bytes.len() < 256 && final(self).history() == old(self).history()
                    + #[trigger] read_packet_frames(c, a, bytes) && buf@.subrange(0, bytes.len() as int)
                    == bytes && forall|k: int| bytes.len() <= k < 255 ==> buf@[k] == 0,
            r matches Err(e) ==> exists|c: u8, a: u8, bytes: Seq<u8>|
                bytes.len() < 256 && stopped_at(
                    old(self).history(),
                    final(self).history(),
                    #[trigger] read_packet_frames(c, a, bytes),
                    e,
                ),
    {
        let mut buffer = [0u8; 255];
        let ghost h0 = self.history();
        let ghost none = Seq::<u8>::empty();
        assert(h0 =~= h0 + Seq::<Event>::empty());
        match self.clear_irq() {
            Ok(()) => {},
            Err(e) => {
                proof {
                    let w = choose|w: u8| stopped_at(h0 + Seq::<Event>::empty(), self.history(), #[trigger] clear_frames(w), e);
                    lemma_stop_extends(h0, self.history(), Seq::<Event>::empty(), clear_frames(w), read_frame(Register::RegRxNbBytes, 0) + read_frame(Register::RegFifoRxCurrentAddr, 0) + write_frame(Register::RegFifoAddrPtr, 0) + fifo_read_frames(none) + write_frame(Register::RegFifoAddrPtr, 0), e, read_packet_frames(w, 0, none));
                }
                return Err(e);
            },
        }
        let ghost c = choose|c: u8| self.history() == h0 + #[trigger] clear_frames(c);
        let ghost d1 = clear_frames(c);
        let size = match self.read_register(Register::RegRxNbBytes) {
            Ok(x) => x,
            Err(e) => {
                proof {
                    let w = choose|w: u8| stopped_at(h0 + d1, self.history(), #[trigger] read_frame(Register::RegRxNbBytes, w), e);
                    assert((Seq::new(w as nat, |_k: int| 0u8)).len() as u8 == w);
                    lemma_stop_extends(h0, self.history(), d1, read_frame(Register::RegRxNbBytes, w), read_frame(Register::RegFifoRxCurrentAddr, 0) + write_frame(Register::RegFifoAddrPtr, 0) + fifo_read_frames(Seq::new(w as nat, |_k: int| 0u8)) + write_frame(Register::RegFifoAddrPtr, 0), e, read_packet_frames(c, 0, Seq::new(w as nat, |_k: int| 0u8)));
                }
                return Err(e);
            },
        };
        let ghost zs = Seq::new(size as nat, |_k: int| 0u8);
        assert(zs.len() as u8 == size);
        let ghost d2 = d1 + read_frame(Register::RegRxNbBytes, size);
        assert(self.history() =~= h0 + d2);
        let addr = match self.read_register(Register::RegFifoRxCurrentAddr) {
            Ok(x) => x,
            Err(e) => {
                proof {
                    let w = choose|w: u8| stopped_at(h0 + d2, self.history(), #[trigger] read_frame(Register::RegFifoRxCurrentAddr, w), e);
                    lemma_stop_extends(h0, self.history(), d2, read_frame(Register::RegFifoRxCurrentAddr, w), write_frame(Register::RegFifoAddrPtr, w) + fifo_read_frames(zs) + write_frame(Register::RegFifoAddrPtr, 0), e, read_packet_frames(c, w, zs));
                }
                return Err(e);
            },
        };
        let ghost d3 = d2 + read_frame(Register::RegFifoRxCurrentAddr, addr);
        assert(self.history() =~= h0 + d3);
        match self.write_register(Register::RegFifoAddrPtr, addr) {
            Ok(()) => {},
            Err(e) => {
                proof {
                    lemma_stop_extends(h0, self.history(), d3, write_frame(Register::RegFifoAddrPtr, addr), fifo_read_frames(zs) + write_frame(Register::RegFifoAddrPtr, 0), e, read_packet_frames(c, addr, zs));
                }
                return Err(e);
            },
        }
        let ghost d4 = d3 + write_frame(Register::RegFifoAddrPtr, addr);
        let ghost h1 = self.history();
        assert(h1 =~= h0 + d4);
        let n: usize = size as usize;
        let mut i: usize = 0;
        while i < n
            invariant
                n == size,
                n < 256,
                i <= n,
                buffer@.len() == 255,
                self.same_cache(old(self)),
                h0 == old(self).history(),
                h1 == h0 + d4,
                d4 == clear_frames(c) + read_frame(Register::RegRxNbBytes, size) + read_frame(
                    Register::RegFifoRxCurrentAddr,
                    addr,
                ) + write_frame(Register::RegFifoAddrPtr, addr),
                self.history() == h1 + fifo_read_frames(buffer@.subrange(0, i as int)),
                forall|k: int| i <= k < 255 ==> buffer@[k] == 0,
            decreases n - i,
        {
            let ghost before = buffer@;
            let ghost hi = self.history();
            let byte = match self.read_register(Register::RegFifo) {
                Ok(x) => x,
                Err(e) => {
                    proof {
                        let w = choose|w: u8|
                            stopped_at(hi, self.history(), #[trigger] read_frame(Register::RegFifo, w), e);
                        let bytes = before.subrange(0, n as int).update(i as int, w);
                        assert(bytes.len() as u8 == size);
                        lemma_fifo_read_split(bytes, i as int + 1);
                        let s1 = bytes.subrange(0, i as int + 1);
                        assert(s1.drop_last() =~= before.subrange(0, i as int));
                        assert(s1.last() == w);
                        let post = bytes.subrange(i as int + 1, n as int);
                        assert(hi =~= h0 + (d4 + fifo_read_frames(before.subrange(0, i as int))));
                        lemma_stop_extends(
                            h0,
                            self.history(),
                            d4 + fifo_read_frames(before.subrange(0, i as int)),
                            read_frame(Register::RegFifo, w),
                            fifo_read_frames(post) + write_frame(Register::RegFifoAddrPtr, 0),
                            e,
                            read_packet_frames(c, addr, bytes),
                        );
                    }
                    return Err(e);
                },
            };
            buffer[i] = byte;
            proof {
                let s = buffer@.subrange(0, i as int + 1);
                assert(s.drop_last() =~= before.subrange(0, i as int));
                assert(s.last() == byte);
            }
            i = i + 1;
        }
        let ghost bytes = buffer@.subrange(0, n as int);
        assert(bytes.len() as u8 == size);
        let ghost d5 = d4 + fifo_read_frames(bytes);
        assert(self.history() =~= h0 + d5);
        match self.write_register(Register::RegFifoAddrPtr, 0) {
            Ok(()) => {},
            Err(e) => {
                proof {
                    lemma_stop_extends(h0, self.history(), d5, write_frame(Register::RegFifoAddrPtr, 0), Seq::<Event>::empty(), e, read_packet_frames(c, addr, bytes));
                }
                return Err(e);
            },
        }
        assert(self.history() =~= old(self).history() + read_packet_frames(c, addr, bytes));
        Ok(buffer)
    }

    /// Pauses for `ms` milliseconds through the port's delay.
    pub fn pause(&mut self, ms: u8)
        ensures
            final(self).same_cache(old(self)),
            final(self).history() == old(self).history().push(Event::Pause(ms)),
    {
        self.port.delay_ms(ms);
        self.log = Ghost(self.log@.push(Event::Pause(ms)));
    }

    fn drive_reset(&mut self, high: bool) -> (r: Result<(), Fault<P>>)
        ensures
            final(self).same_cache(old(self)),
            r matches Err(e) ==> e.is_port_fault(),
            r is Ok ==> final(self).history() == old(self).history().push(Event::Reset(high)),
            r matches Err(e) ==> stopped_at(
                old(self).history(),
                final(self).history(),
                seq![Event::Reset(high)],
                e,
            ),
    {
        match self.port.set_reset(high) {
            Ok(()) => {
                self.log = Ghost(self.log@.push(Event::Reset(high)));
                Ok(())
            },
            Err(e) => {
                assert(self.history() =~= old(self).history() + seq![Event::Reset(high)].take(0));
                Err(Error::Reset(e))
            },
        }
    }

    /// The port that the radio talks through.
    pub fn port(&self) -> &P {
        &self.port
    }

    /// Gives the port back, ending the handle.
    pub fn release(self) -> P {
        self.port
    }
}

} // verus!
