//! Register encodings: the datasheet formulas that turn settings into register
//! bits and register bits back into settings.
use vstd::prelude::*;

verus! {

/// Crystal oscillator frequency of the chip, in Hz.
pub const CRYSTAL_HZ: u64 = 32_000_000;

/// The frequency register value for `freq` MHz: `freq * 2^19 / 32`.
pub open spec fn frf_of(freq: u32) -> u64 {
    ((freq as u64) * 16384) as u64
}

/// The top byte of the 24-bit frequency word.
pub open spec fn frf_msb(frf: u64) -> u8 {
    ((frf & 0x00ff_0000) >> 16) as u8
}

/// The middle byte of the 24-bit frequency word.
pub open spec fn frf_mid(frf: u64) -> u8 {
    ((frf & 0x0000_ff00) >> 8) as u8
}

/// The low byte of the 24-bit frequency word.
pub open spec fn frf_lsb(frf: u64) -> u8 {
    (frf & 0x0000_00ff) as u8
}

/// The three frequency register bytes, most significant first, for `freq` MHz.
pub fn frequency_bytes(freq: u32) -> (r: (u8, u8, u8))
    ensures
        r.0 == frf_msb(frf_of(freq)),
        r.1 == frf_mid(frf_of(freq)),
        r.2 == frf_lsb(frf_of(freq)),
{
    let frf: u64 = (freq as u64) * 16384;
    (((frf & 0x00ff_0000) >> 16) as u8, ((frf & 0x0000_ff00) >> 8) as u8, (frf & 0x0000_00ff) as u8)
}

/// A frequency below 1024 MHz is kept whole by its three register bytes:
/// `(msb << 16) | (mid << 8) | lsb` gives back `freq * 2^19 / 32`.
pub proof fn lemma_frequency_bytes_round_trip(freq: u32)
    requires
        freq < 1024,
    ensures
        ((frf_msb(frf_of(freq)) as u64) << 16) | ((frf_mid(frf_of(freq)) as u64) << 8) | (frf_lsb(
            frf_of(freq),
        ) as u64) == frf_of(freq),
{
    let frf = frf_of(freq);
    assert(frf < 0x0100_0000) by (nonlinear_arith)
        requires
            frf == (freq as u64) * 16384,
            freq < 1024,
    ;
    assert(((((frf & 0x00ff_0000) >> 16) as u8 as u64) << 16) | ((((frf & 0x0000_ff00) >> 8) as u8
        as u64) << 8) | ((frf & 0x0000_00ff) as u8 as u64) == frf) by (bit_vector)
        requires
            frf < 0x0100_0000,
    ;
}

/// Whether `hz` is one of the nine signal bandwidths that the chip supports.
pub open spec fn is_supported_bandwidth(hz: i64) -> bool {
    hz == 7_800 || hz == 10_400 || hz == 15_600 || hz == 20_800 || hz == 31_250 || hz == 41_700
        || hz == 62_500 || hz == 125_000 || hz == 250_000
}

/// The register index of a bandwidth in Hz; 9 for any unsupported value.
pub open spec fn bandwidth_index_of(hz: i64) -> u8 {
    if hz == 7_800 {
        0
    } else if hz == 10_400 {
        1
    } else if hz == 15_600 {
        2
    } else if hz == 20_800 {
        3
    } else if hz == 31_250 {
        4
    } else if hz == 41_700 {
        5
    } else if hz == 62_500 {
        6
    } else if hz == 125_000 {
        7
    } else if hz == 250_000 {
        8
    } else {
        9
    }
}

/// The bandwidth in Hz that a register index stands for; -1 for an index the
/// chip does not define.
pub open spec fn bandwidth_hz_of(index: u8) -> i64 {
    if index == 0 {
        7_800
    } else if index == 1 {
        10_400
    } else if index == 2 {
        15_600
    } else if index == 3 {
        20_800
    } else if index == 4 {
        31_250
    } else if index == 5 {
        41_700
    } else if index == 6 {
        62_500
    } else if index == 7 {
        125_000
    } else if index == 8 {
        250_000
    } else if index == 9 {
        500_000
    } else {
        -1i64
    }
}

/// Encodes a bandwidth in Hz as its register index.
pub fn bandwidth_index(hz: i64) -> (r: u8)
    ensures
        r == bandwidth_index_of(hz),
        r <= 9,
{
    match hz {
        7_800 => 0,
        10_400 => 1,
        15_600 => 2,
        20_800 => 3,
        31_250 => 4,
        41_700 => 5,
        62_500 => 6,
        125_000 => 7,
        250_000 => 8,
        _ => 9,
    }
}

/// Decodes a register index into a bandwidth in Hz.
pub fn bandwidth_hz(index: u8) -> (r: i64)
    ensures
        r == bandwidth_hz_of(index),
{
    match index {
        0 => 7_800,
        1 => 10_400,
        2 => 15_600,
        3 => 20_800,
        4 => 31_250,
        5 => 41_700,
        6 => 62_500,
        7 => 125_000,
        8 => 250_000,
        9 => 500_000,
        _ => -1,
    }
}

/// Modem configuration 1 with the bandwidth index `index` in its high nibble.
pub open spec fn with_bandwidth(config: u8, index: u8) -> u8 {
    (config & 0x0f) | ((index << 4u8) as u8)
}

/// The bandwidth index held in the high nibble of modem configuration 1.
pub open spec fn bandwidth_field(config: u8) -> u8 {
    config >> 4u8
}

/// A supported bandwidth written into modem configuration 1, whatever the
/// register held before, reads back as the same bandwidth.
pub proof fn lemma_bandwidth_round_trip(config: u8, hz: i64)
    requires
        is_supported_bandwidth(hz),
    ensures
        bandwidth_hz_of(bandwidth_field(with_bandwidth(config, bandwidth_index_of(hz)))) == hz,
{
    let i = bandwidth_index_of(hz);
    assert(i < 16);
    assert(((config & 0x0f) | ((i << 4u8) as u8)) >> 4u8 == i) by (bit_vector)
        requires
            i < 16,
    ;
}

/// The spreading factor actually used for a requested one: clamped to 6..=12.
pub open spec fn clamp_spreading_factor(sf: u8) -> u8 {
    if sf < 6 {
        6
    } else if sf > 12 {
        12
    } else {
        sf
    }
}

/// Clamps a requested spreading factor to 6..=12.
pub fn spreading_factor_clamp(sf: u8) -> (r: u8)
    ensures
        r == clamp_spreading_factor(sf),
        6 <= r <= 12,
{
    if sf < 6 {
        6
    } else if sf > 12 {
        12
    } else {
        sf
    }
}

/// Modem configuration 2 with spreading factor `sf` in its high nibble.
pub open spec fn with_spreading_factor(config: u8, sf: u8) -> u8 {
    (config & 0x0f) | (((sf << 4u8) as u8) & 0xf0)
}

/// The spreading factor held in the high nibble of modem configuration 2.
pub open spec fn spreading_factor_field(config: u8) -> u8 {
    config >> 4u8
}

/// The detection-optimize and detection-threshold values the chip wants for
/// spreading factor `sf`.
pub open spec fn detection_values(sf: u8) -> (u8, u8) {
    if sf == 6 {
        (0xc5, 0x0c)
    } else {
        (0xc3, 0x0a)
    }
}

/// A spreading factor below 6 is used as 6 and one above 12 as 12; in range,
/// the value written reads back unchanged.
pub proof fn lemma_spreading_factor_clamp(config: u8, sf: u8)
    ensures
        sf < 6 ==> clamp_spreading_factor(sf) == clamp_spreading_factor(6),
        sf > 12 ==> clamp_spreading_factor(sf) == clamp_spreading_factor(12),
        spreading_factor_field(with_spreading_factor(config, clamp_spreading_factor(sf)))
            == clamp_spreading_factor(sf),
{
    let c = clamp_spreading_factor(sf);
    assert(c < 16);
    assert(((config & 0x0f) | (((c << 4u8) as u8) & 0xf0)) >> 4u8 == c) by (bit_vector)
        requires
            c < 16,
    ;
}

/// The coding-rate denominator actually used for a requested one: clamped to 5..=8.
pub open spec fn clamp_coding_rate(denominator: u8) -> u8 {
    if denominator < 5 {
        5
    } else if denominator > 8 {
        8
    } else {
        denominator
    }
}

/// Modem configuration 1 with coding rate `4/denominator` in bits 1..=3.
pub open spec fn with_coding_rate(config: u8, denominator: u8) -> u8 {
    (config & 0xf1) | (((clamp_coding_rate(denominator) - 4) as u8) << 1u8)
}

/// Encodes a coding-rate denominator into modem configuration 1.
pub fn coding_rate_config(config: u8, denominator: u8) -> (r: u8)
    ensures
        r == with_coding_rate(config, denominator),
{
    let d: u8 = if denominator < 5 {
        5
    } else if denominator > 8 {
        8
    } else {
        denominator
    };
    let cr: u8 = d - 4;
    (config & 0xf1) | (cr << 1u8)
}

/// The over-current trim for a limit of `ma` milliamperes: a piecewise
/// linear map, saturating at 0 below 45 mA and at 27 above 240 mA.
pub open spec fn ocp_trim_of(ma: u8) -> u8 {
    if ma < 45 {
        0
    } else if ma <= 120 {
        ((ma - 45) / 5) as u8
    } else if ma <= 240 {
        ((ma + 30) / 10) as u8
    } else {
        27
    }
}

/// Computes the over-current trim for a limit of `ma` milliamperes.
pub fn ocp_trim(ma: u8) -> (r: u8)
    ensures
        r == ocp_trim_of(ma),
        r <= 27,
{
    if ma < 45 {
        0
    } else if ma <= 120 {
        (ma - 45) / 5
    } else if ma <= 240 {
        ((ma as u16 + 30) / 10) as u8
    } else {
        27
    }
}

/// The over-current register value: the enable bit and the 5-bit trim.
pub open spec fn ocp_register(trim: u8) -> u8 {
    0x20 | (0x1f & trim)
}

/// Symbols per second at bandwidth `bw` Hz and spreading factor `sf`,
/// `bw / 2^sf`, the quotient truncated toward zero.
pub open spec fn symbol_rate(bw: i64, sf: u8) -> int {
    if bw >= 0 {
        (bw as int) / ((1u64 << sf) as int)
    } else {
        -((-(bw as int)) / ((1u64 << sf) as int))
    }
}

/// Whether low-data-rate optimization is due: the symbol duration
/// `1000 / symbol_rate` exceeds 16 ms. A rate that truncates to zero is a
/// symbol without end, and so is due too.
pub open spec fn low_data_rate_due(bw: i64, sf: u8) -> bool {
    let q = symbol_rate(bw, sf);
    q == 0 || (q > 0 && 1000int / q > 16)
}

/// Decides the low-data-rate-optimization flag from the bandwidth in Hz and
/// the spreading factor.
pub fn low_data_rate(bw: i64, sf: u8) -> (r: bool)
    requires
        sf < 64,
    ensures
        r == low_data_rate_due(bw, sf),
{
    let d: u64 = 1u64 << sf;
    assert(d > 0) by (bit_vector)
        requires
            d == 1u64 << sf,
            sf < 64,
    ;
    let mag: u64 = if bw >= 0 {
        bw as u64
    } else {
        (-(bw as i128)) as u64
    };
    let q: u64 = mag / d;
    if q == 0 {
        true
    } else if bw >= 0 {
        1000 / q > 16
    } else {
        false
    }
}

/// The 19-bit frequency-error magnitude held by the three error registers:
/// the top register masked to its 3 low bits, the sign not reconstructed.
pub open spec fn freq_error_raw(msb: u8, mid: u8, lsb: u8) -> int {
    ((msb & 0x07) as int) * 65536 + (mid as int) * 256 + (lsb as int)
}

/// The frequency error in Hz for raw error `raw` at bandwidth `bw` Hz:
/// `(raw * 2^24 / 32 MHz) * (bw / 500 kHz)`, truncated toward zero.
pub open spec fn freq_error_hz(raw: int, bw: i64) -> int {
    if bw >= 0 {
        raw * 16_777_216 * (bw as int) / 16_000_000_000_000
    } else {
        -(raw * 16_777_216 * (-(bw as int)) / 16_000_000_000_000)
    }
}

/// Computes the frequency error in Hz from the three error registers and the
/// bandwidth in Hz.
pub fn frequency_error(msb: u8, mid: u8, lsb: u8, bw: i64) -> (r: i64)
    ensures
        r == freq_error_hz(freq_error_raw(msb, mid, lsb), bw),
{
    let top: u8 = msb & 0x07;
    assert(msb & 0x07 <= 7) by (bit_vector);
    let raw: u128 = (top as u128) * 65536 + (mid as u128) * 256 + (lsb as u128);
    assert(raw < 524288);
    let mag: u128 = if bw >= 0 {
        bw as u128
    } else {
        (-(bw as i128)) as u128
    };
    assert(mag <= 0x8000_0000_0000_0000);
    assert(raw * 16_777_216 * mag <= 524288 * 16_777_216 * 0x8000_0000_0000_0000) by (
    nonlinear_arith)
        requires
            raw < 524288,
            mag <= 0x8000_0000_0000_0000,
    ;
    let scaled: u128 = raw * 16_777_216 * mag / ((CRYSTAL_HZ as u128) * 500_000);
    assert(scaled <= 524288 * 16_777_216 * 0x8000_0000_0000_0000 / 16_000_000_000_000) by (
    nonlinear_arith)
        requires
            scaled == raw * 16_777_216 * mag / 16_000_000_000_000,
            raw * 16_777_216 * mag <= 524288 * 16_777_216 * 0x8000_0000_0000_0000,
    ;
    if bw >= 0 {
        scaled as i64
    } else {
        -(scaled as i64)
    }
}

} // verus!
