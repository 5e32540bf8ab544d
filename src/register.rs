//! Register addresses of the transceiver and the operating modes written to
//! its mode register.
use vstd::prelude::*;

verus! {

/// The chip registers that the driver touches, in LoRa mode.
#[derive(Clone, Copy, PartialEq, Eq, Structural, Debug)]
pub enum Register {
    RegFifo,
    RegOpMode,
    RegFrfMsb,
    RegFrfMid,
    RegFrfLsb,
    RegPaConfig,
    RegOcp,
    RegLna,
    RegFifoAddrPtr,
    RegFifoTxBaseAddr,
    RegFifoRxBaseAddr,
    RegFifoRxCurrentAddr,
    RegIrqFlags,
    RegRxNbBytes,
    RegPktSnrValue,
    RegPktRssiValue,
    RegModemConfig1,
    RegModemConfig2,
    RegPreambleMsb,
    RegPreambleLsb,
    RegPayloadLength,
    RegModemConfig3,
    RegFreqErrorMsb,
    RegFreqErrorMid,
    RegFreqErrorLsb,
    RegDetectionOptimize,
    RegInvertiq,
    RegDetectionThreshold,
    RegInvertiq2,
    RegDioMapping1,
    RegVersion,
    RegPaDac,
}

impl Register {
    /// The 7-bit address of the register.
    pub open spec fn address(self) -> u8 {
        match self {
            Register::RegFifo => 0x00,
            Register::RegOpMode => 0x01,
            Register::RegFrfMsb => 0x06,
            Register::RegFrfMid => 0x07,
            Register::RegFrfLsb => 0x08,
            Register::RegPaConfig => 0x09,
            Register::RegOcp => 0x0b,
            Register::RegLna => 0x0c,
            Register::RegFifoAddrPtr => 0x0d,
            Register::RegFifoTxBaseAddr => 0x0e,
            Register::RegFifoRxBaseAddr => 0x0f,
            Register::RegFifoRxCurrentAddr => 0x10,
            Register::RegIrqFlags => 0x12,
            Register::RegRxNbBytes => 0x13,
            Register::RegPktSnrValue => 0x19,
            Register::RegPktRssiValue => 0x1a,
            Register::RegModemConfig1 => 0x1d,
            Register::RegModemConfig2 => 0x1e,
            Register::RegPreambleMsb => 0x20,
            Register::RegPreambleLsb => 0x21,
            Register::RegPayloadLength => 0x22,
            Register::RegModemConfig3 => 0x26,
            Register::RegFreqErrorMsb => 0x28,
            Register::RegFreqErrorMid => 0x29,
            Register::RegFreqErrorLsb => 0x2a,
            Register::RegDetectionOptimize => 0x31,
            Register::RegInvertiq => 0x33,
            Register::RegDetectionThreshold => 0x37,
            Register::RegInvertiq2 => 0x3b,
            Register::RegDioMapping1 => 0x40,
            Register::RegVersion => 0x42,
            Register::RegPaDac => 0x4d,
        }
    }

    /// The 7-bit address of the register.
    pub fn addr(self) -> (r: u8)
        ensures
            r == self.address(),
            r < 0x80,
    {
        match self {
            Register::RegFifo => 0x00,
            Register::RegOpMode => 0x01,
            Register::RegFrfMsb => 0x06,
            Register::RegFrfMid => 0x07,
            Register::RegFrfLsb => 0x08,
            Register::RegPaConfig => 0x09,
            Register::RegOcp => 0x0b,
            Register::RegLna => 0x0c,
            Register::RegFifoAddrPtr => 0x0d,
            Register::RegFifoTxBaseAddr => 0x0e,
            Register::RegFifoRxBaseAddr => 0x0f,
            Register::RegFifoRxCurrentAddr => 0x10,
            Register::RegIrqFlags => 0x12,
            Register::RegRxNbBytes => 0x13,
            Register::RegPktSnrValue => 0x19,
            Register::RegPktRssiValue => 0x1a,
            Register::RegModemConfig1 => 0x1d,
            Register::RegModemConfig2 => 0x1e,
            Register::RegPreambleMsb => 0x20,
            Register::RegPreambleLsb => 0x21,
            Register::RegPayloadLength => 0x22,
            Register::RegModemConfig3 => 0x26,
            Register::RegFreqErrorMsb => 0x28,
            Register::RegFreqErrorMid => 0x29,
            Register::RegFreqErrorLsb => 0x2a,
            Register::RegDetectionOptimize => 0x31,
            Register::RegInvertiq => 0x33,
            Register::RegDetectionThreshold => 0x37,
            Register::RegInvertiq2 => 0x3b,
            Register::RegDioMapping1 => 0x40,
            Register::RegVersion => 0x42,
            Register::RegPaDac => 0x4d,
        }
    }
}

/// Modes of the radio and their register values.
#[derive(Clone, Copy, PartialEq, Eq, Structural, Debug)]
pub enum RadioMode {
    LongRangeMode,
    Sleep,
    Stdby,
    Tx,
    RxContinuous,
    RxSingle,
}

impl RadioMode {
    /// The bits that the mode stands for in the operating-mode register.
    pub open spec fn value(self) -> u8 {
        match self {
            RadioMode::LongRangeMode => 0x80,
            RadioMode::Sleep => 0x00,
            RadioMode::Stdby => 0x01,
            RadioMode::Tx => 0x03,
            RadioMode::RxContinuous => 0x05,
            RadioMode::RxSingle => 0x06,
        }
    }

    /// The bits that the mode stands for in the operating-mode register.
    pub fn bits(self) -> (r: u8)
        ensures
            r == self.value(),
    {
        match self {
            RadioMode::LongRangeMode => 0x80,
            RadioMode::Sleep => 0x00,
            RadioMode::Stdby => 0x01,
            RadioMode::Tx => 0x03,
            RadioMode::RxContinuous => 0x05,
            RadioMode::RxSingle => 0x06,
        }
    }
}

} // verus!
