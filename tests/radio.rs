use sx127x_lora::encoding::{
    bandwidth_hz, bandwidth_index, coding_rate_config, frequency_bytes, frequency_error,
    low_data_rate, ocp_trim, spreading_factor_clamp,
};
use sx127x_lora::{Error, LoRa, RadioMode, SimChip};

const REG_OP_MODE: u8 = 0x01;
const REG_FRF_MSB: u8 = 0x06;
const REG_FRF_MID: u8 = 0x07;
const REG_FRF_LSB: u8 = 0x08;
const REG_PA_CONFIG: u8 = 0x09;
const REG_OCP: u8 = 0x0b;
const REG_LNA: u8 = 0x0c;
const REG_FIFO_TX_BASE: u8 = 0x0e;
const REG_FIFO_RX_BASE: u8 = 0x0f;
const REG_IRQ_FLAGS: u8 = 0x12;
const REG_PKT_RSSI: u8 = 0x1a;
const REG_MODEM_CONFIG_1: u8 = 0x1d;
const REG_MODEM_CONFIG_2: u8 = 0x1e;
const REG_PREAMBLE_MSB: u8 = 0x20;
const REG_PREAMBLE_LSB: u8 = 0x21;
const REG_MODEM_CONFIG_3: u8 = 0x26;
const REG_FREQ_ERROR_MSB: u8 = 0x28;
const REG_FREQ_ERROR_MID: u8 = 0x29;
const REG_FREQ_ERROR_LSB: u8 = 0x2a;
const REG_DETECTION_OPTIMIZE: u8 = 0x31;
const REG_INVERT_IQ: u8 = 0x33;
const REG_DETECTION_THRESHOLD: u8 = 0x37;
const REG_INVERT_IQ_2: u8 = 0x3b;
const REG_DIO_MAPPING_1: u8 = 0x40;
const REG_PA_DAC: u8 = 0x4d;

fn radio() -> LoRa<SimChip> {
    LoRa::new(SimChip::new(0x12), 915).unwrap()
}

fn reg(lora: &LoRa<SimChip>, addr: u8) -> u8 {
    lora.port().register(addr)
}

#[test]
fn init_against_simulated_chip() {
    let mut sim = SimChip::new(0x12);
    sim.set_register(REG_FIFO_TX_BASE, 0x80);
    sim.set_register(REG_FIFO_RX_BASE, 0x40);
    sim.set_register(REG_LNA, 0x20);
    let lora = LoRa::new(sim, 915).unwrap();
    assert_eq!(lora.mode, RadioMode::Stdby);
    assert!(lora.explicit_header);
    assert_eq!(reg(&lora, REG_OP_MODE), 0x81);
    assert_eq!(reg(&lora, REG_FRF_MSB), 0xe4);
    assert_eq!(reg(&lora, REG_FRF_MID), 0xc0);
    assert_eq!(reg(&lora, REG_FRF_LSB), 0x00);
    assert_eq!(reg(&lora, REG_FIFO_TX_BASE), 0);
    assert_eq!(reg(&lora, REG_FIFO_RX_BASE), 0);
    assert_eq!(reg(&lora, REG_LNA), 0x23);
    assert_eq!(reg(&lora, REG_MODEM_CONFIG_3), 0x04);
}

#[test]
fn init_reports_version_mismatch() {
    match LoRa::new(SimChip::new(0x11), 915) {
        Err(Error::VersionMismatch(v)) => assert_eq!(v, 0x11),
        _ => panic!("expected a version mismatch"),
    }
}

#[test]
fn bus_failure_surfaces_as_spi_error() {
    let mut sim = SimChip::new(0x12);
    sim.set_bus_failure(true);
    match LoRa::new(sim, 915) {
        Err(Error::SPI(())) => {}
        _ => panic!("expected a bus error"),
    }
}

#[test]
fn reset_line_failure_surfaces_as_reset_error() {
    let mut sim = SimChip::new(0x12);
    sim.set_reset_failure(true);
    match LoRa::new(sim, 915) {
        Err(Error::Reset(())) => {}
        _ => panic!("expected a reset-line error"),
    }
}

#[test]
fn select_line_failure_surfaces_as_cs_error() {
    let mut sim = SimChip::new(0x12);
    sim.set_select_failure(true);
    match LoRa::new(sim, 915) {
        Err(Error::CS(())) => {}
        _ => panic!("expected a chip-select error"),
    }
}

#[test]
fn frequency_registers_reconstruct_frf() {
    for f in [137u32, 169, 433, 434, 868, 915, 1020, 0, 1, 1023] {
        let mut lora = radio();
        lora.set_frequency(f).unwrap();
        let frf = ((reg(&lora, REG_FRF_MSB) as u32) << 16)
            | ((reg(&lora, REG_FRF_MID) as u32) << 8)
            | reg(&lora, REG_FRF_LSB) as u32;
        assert_eq!(frf, f * (1 << 19) / 32);
    }
}

#[test]
fn frequency_bytes_of_915() {
    assert_eq!(frequency_bytes(915), (0xe4, 0xc0, 0x00));
    assert_eq!(frequency_bytes(433), (0x6c, 0x40, 0x00));
}

#[test]
fn bandwidth_round_trips() {
    for bw in [7_800i64, 10_400, 15_600, 20_800, 31_250, 41_700, 62_500, 125_000, 250_000] {
        let mut lora = radio();
        lora.set_signal_bandwidth(bw).unwrap();
        assert_eq!(lora.get_signal_bandwidth().unwrap(), bw);
    }
}

#[test]
fn bandwidth_encoding_values() {
    assert_eq!(bandwidth_index(7_800), 0);
    assert_eq!(bandwidth_index(250_000), 8);
    assert_eq!(bandwidth_index(500_000), 9);
    assert_eq!(bandwidth_index(1234), 9);
    assert_eq!(bandwidth_hz(9), 500_000);
    assert_eq!(bandwidth_hz(10), -1);
}

#[test]
fn unsupported_bandwidth_keeps_low_nibble() {
    let mut lora = radio();
    lora.set_coding_rate_4(8).unwrap();
    lora.set_signal_bandwidth(1234).unwrap();
    assert_eq!(reg(&lora, REG_MODEM_CONFIG_1), 0x98);
}

#[test]
fn spreading_factor_clamps() {
    let mut low = radio();
    let mut six = radio();
    low.set_spreading_factor(3).unwrap();
    six.set_spreading_factor(6).unwrap();
    for r in [REG_MODEM_CONFIG_2, REG_DETECTION_OPTIMIZE, REG_DETECTION_THRESHOLD, REG_MODEM_CONFIG_3] {
        assert_eq!(reg(&low, r), reg(&six, r));
    }
    assert_eq!(reg(&six, REG_DETECTION_OPTIMIZE), 0xc5);
    assert_eq!(reg(&six, REG_DETECTION_THRESHOLD), 0x0c);
    assert_eq!(six.get_spreading_factor().unwrap(), 6);

    let mut high = radio();
    let mut twelve = radio();
    high.set_spreading_factor(200).unwrap();
    twelve.set_spreading_factor(12).unwrap();
    for r in [REG_MODEM_CONFIG_2, REG_DETECTION_OPTIMIZE, REG_DETECTION_THRESHOLD, REG_MODEM_CONFIG_3] {
        assert_eq!(reg(&high, r), reg(&twelve, r));
    }
    assert_eq!(reg(&twelve, REG_DETECTION_OPTIMIZE), 0xc3);
    assert_eq!(reg(&twelve, REG_DETECTION_THRESHOLD), 0x0a);
    assert_eq!(twelve.get_spreading_factor().unwrap(), 12);
    assert_eq!(spreading_factor_clamp(0), 6);
    assert_eq!(spreading_factor_clamp(9), 9);
    assert_eq!(spreading_factor_clamp(13), 12);
}

#[test]
fn low_data_rate_flag_follows_symbol_duration() {
    let mut lora = radio();
    lora.set_signal_bandwidth(125_000).unwrap();
    lora.set_spreading_factor(12).unwrap();
    assert_eq!(reg(&lora, REG_MODEM_CONFIG_3) & 0x08, 0x08);
    lora.set_spreading_factor(7).unwrap();
    assert_eq!(reg(&lora, REG_MODEM_CONFIG_3) & 0x08, 0);
    assert_eq!(reg(&lora, REG_MODEM_CONFIG_3), 0x04);
    assert!(low_data_rate(125_000, 12));
    assert!(!low_data_rate(125_000, 11));
    assert!(low_data_rate(7_800, 13));
    assert!(!low_data_rate(-1, 0));
}

#[test]
fn ocp_trims() {
    let mut lora = radio();
    lora.set_ocp(45).unwrap();
    assert_eq!(reg(&lora, REG_OCP), 0x20);
    lora.set_ocp(120).unwrap();
    assert_eq!(reg(&lora, REG_OCP), 0x20 | 15);
    lora.set_ocp(241).unwrap();
    assert_eq!(reg(&lora, REG_OCP), 0x20 | 27);
    lora.set_ocp(10).unwrap();
    assert_eq!(reg(&lora, REG_OCP), 0x20);
    assert_eq!(ocp_trim(44), 0);
    assert_eq!(ocp_trim(0), 0);
    assert_eq!(ocp_trim(45), 0);
    assert_eq!(ocp_trim(120), 15);
    assert_eq!(ocp_trim(130), 16);
    assert_eq!(ocp_trim(240), 27);
    assert_eq!(ocp_trim(241), 27);
}

#[test]
fn set_mode_writes_long_range_bit() {
    let mut lora = radio();
    lora.set_mode(RadioMode::Stdby).unwrap();
    assert_eq!(reg(&lora, REG_OP_MODE) & 0x07, 0x01);
    assert_eq!(lora.mode, RadioMode::Stdby);
    for (mode, bits) in [
        (RadioMode::Sleep, 0x00u8),
        (RadioMode::Stdby, 0x01),
        (RadioMode::Tx, 0x03),
        (RadioMode::RxContinuous, 0x05),
        (RadioMode::RxSingle, 0x06),
    ] {
        lora.set_mode(mode).unwrap();
        assert_eq!(reg(&lora, REG_OP_MODE), 0x80 | bits);
        assert_eq!(lora.mode, mode);
    }
}

#[test]
fn implicit_header_sets_bit_zero() {
    let mut lora = radio();
    lora.set_signal_bandwidth(125_000).unwrap();
    lora.explicit_header = false;
    lora.set_mode(RadioMode::Stdby).unwrap();
    assert_eq!(reg(&lora, REG_MODEM_CONFIG_1), 0x71);
    lora.explicit_header = true;
    lora.set_mode(RadioMode::Stdby).unwrap();
    assert_eq!(reg(&lora, REG_MODEM_CONFIG_1), 0x70);
}

#[test]
fn poll_with_zero_timeout_times_out() {
    let mut lora = radio();
    match lora.poll_irq(0) {
        Err(Error::Uninformative) => {}
        _ => panic!("expected a timeout"),
    }
    assert_eq!(lora.mode, RadioMode::RxContinuous);
    match lora.poll_irq(-5) {
        Err(Error::Uninformative) => {}
        _ => panic!("expected a timeout"),
    }
    match lora.poll_irq(25) {
        Err(Error::Uninformative) => {}
        _ => panic!("expected a timeout"),
    }
}

#[test]
fn transmit_writes_length_prefix_and_payload() {
    let bytes: [u8; 13] = *b"Hello, world!";
    let payload = heapless::Vec::<u8, 255>::from_slice(&bytes).unwrap();
    let mut lora = radio();
    lora.transmit_payload(&payload).unwrap();
    let written = lora.port().fifo_written();
    assert_eq!(written.len(), 14);
    assert_eq!(written[0], 13);
    assert_eq!(&written[1..], &bytes[..]);
    assert_eq!(lora.mode, RadioMode::Tx);
    assert_eq!(reg(&lora, REG_OP_MODE), 0x83);
}

#[test]
fn transmit_empty_payload() {
    let payload = heapless::Vec::<u8, 255>::new();
    let mut lora = radio();
    lora.transmit_payload(&payload).unwrap();
    assert_eq!(lora.port().fifo_written(), vec![0u8]);
}

#[test]
fn receive_twenty_byte_packet() {
    let packet: Vec<u8> = (0..20u8).map(|i| i * 7 + 1).collect();
    let mut sim = SimChip::new(0x12);
    sim.receive(&packet);
    let mut lora = LoRa::new(sim, 868).unwrap();
    assert_eq!(lora.poll_irq(100).unwrap(), 20);
    assert_eq!(reg(&lora, REG_IRQ_FLAGS) & 0x40, 0);
    let buffer = lora.read_packet().unwrap();
    assert_eq!(buffer.len(), 255);
    assert_eq!(&buffer[..20], &packet[..]);
    assert!(buffer[20..].iter().all(|&b| b == 0));
}

#[test]
fn check_rx_done_reports_count() {
    let mut sim = SimChip::new(0x12);
    sim.receive(&[1, 2, 3]);
    let mut lora = LoRa::new(sim, 868).unwrap();
    assert_eq!(lora.check_rx_done().unwrap(), Some(3));
    assert_eq!(lora.check_rx_done().unwrap(), None);
}

#[test]
fn irq_flags_and_packet_ready() {
    let mut sim = SimChip::new(0x12);
    sim.set_register(REG_IRQ_FLAGS, 0x08);
    let mut lora = LoRa::new(sim, 868).unwrap();
    assert_eq!(lora.irq_flags().unwrap(), 0x08);
    assert!(!lora.is_packet_ready().unwrap());
    lora.clear_irq().unwrap();
    assert_eq!(lora.irq_flags().unwrap(), 0);

    let mut sim = SimChip::new(0x12);
    sim.set_register(REG_IRQ_FLAGS, 0x04);
    let mut lora = LoRa::new(sim, 868).unwrap();
    assert!(lora.is_packet_ready().unwrap());
}

#[test]
fn dio0_mapping() {
    let mut lora = radio();
    lora.set_dio0_tx_done().unwrap();
    assert_eq!(reg(&lora, REG_DIO_MAPPING_1), 0x40);
}

#[test]
fn coding_rate_bits() {
    let mut lora = radio();
    lora.set_signal_bandwidth(125_000).unwrap();
    lora.set_coding_rate_4(5).unwrap();
    assert_eq!(reg(&lora, REG_MODEM_CONFIG_1), 0x72);
    lora.set_coding_rate_4(1).unwrap();
    assert_eq!(reg(&lora, REG_MODEM_CONFIG_1), 0x72);
    lora.set_coding_rate_4(9).unwrap();
    assert_eq!(reg(&lora, REG_MODEM_CONFIG_1), 0x78);
    assert_eq!(coding_rate_config(0xff, 6), 0xf5);
}

#[test]
fn preamble_crc_and_invert_iq() {
    let mut lora = radio();
    lora.set_preamble_length(0x1234).unwrap();
    assert_eq!(reg(&lora, REG_PREAMBLE_MSB), 0x12);
    assert_eq!(reg(&lora, REG_PREAMBLE_LSB), 0x34);
    lora.set_crc(true).unwrap();
    assert_eq!(reg(&lora, REG_MODEM_CONFIG_2) & 0x04, 0x04);
    lora.set_crc(false).unwrap();
    assert_eq!(reg(&lora, REG_MODEM_CONFIG_2) & 0x04, 0);
    lora.set_invert_iq(true).unwrap();
    assert_eq!((reg(&lora, REG_INVERT_IQ), reg(&lora, REG_INVERT_IQ_2)), (0x66, 0x19));
    lora.set_invert_iq(false).unwrap();
    assert_eq!((reg(&lora, REG_INVERT_IQ), reg(&lora, REG_INVERT_IQ_2)), (0x27, 0x1d));
}

#[test]
fn tx_power_levels() {
    let mut lora = radio();
    lora.set_ocp(100).unwrap();
    lora.set_tx_power(17, false).unwrap();
    assert_eq!(reg(&lora, REG_PA_CONFIG), 0x8f);
    assert_eq!(reg(&lora, REG_PA_DAC), 0);
    assert_eq!(reg(&lora, REG_OCP), 0x20 | 11);
    lora.set_tx_power(20, false).unwrap();
    assert_eq!(reg(&lora, REG_PA_CONFIG), 0x8f);
    assert_eq!(reg(&lora, REG_PA_DAC), 0);
    lora.set_tx_power(0, false).unwrap();
    assert_eq!(reg(&lora, REG_PA_CONFIG), 0x80);
    lora.set_tx_power(10, true).unwrap();
    assert_eq!(reg(&lora, REG_PA_CONFIG), 0x7a);
    lora.set_tx_power(30, true).unwrap();
    assert_eq!(reg(&lora, REG_PA_CONFIG), 0x7e);
}

#[test]
fn check_version_reports_value_read() {
    let mut lora = radio();
    lora.check_version().unwrap();
    let mut sim = SimChip::new(0x12);
    sim.set_register(0x42, 0x12);
    let mut other = LoRa::new(sim, 433).unwrap();
    other.check_version().unwrap();
}

#[test]
fn receive_lands_at_current_address() {
    let mut sim = SimChip::new(0x12);
    sim.set_register(0x10, 250);
    sim.receive(&[9, 8, 7, 6, 5, 4, 3, 2]);
    let mut lora = LoRa::new(sim, 868).unwrap();
    assert_eq!(lora.poll_irq(3).unwrap(), 8);
    let buffer = lora.read_packet().unwrap();
    assert_eq!(&buffer[..8], &[9, 8, 7, 6, 5, 4, 3, 2]);
}

#[test]
fn packet_rssi_and_frequency_error() {
    let mut sim = SimChip::new(0x12);
    sim.set_register(REG_PKT_RSSI, 100);
    sim.set_register(REG_FREQ_ERROR_MSB, 0xf9);
    sim.set_register(REG_FREQ_ERROR_MID, 0x00);
    sim.set_register(REG_FREQ_ERROR_LSB, 0x00);
    let mut lora = LoRa::new(sim, 868).unwrap();
    assert_eq!(lora.get_packet_rssi().unwrap(), -57);
    lora.set_signal_bandwidth(125_000).unwrap();
    assert_eq!(lora.get_packet_frequency_error().unwrap(), 8589);
    assert_eq!(frequency_error(0x07, 0xff, 0xff, 7_800), 4288);
    assert_eq!(frequency_error(0x01, 0, 0, -1), 0);
    assert_eq!(frequency_error(0, 0, 0, 500_000), 0);
}

#[test]
fn read_register_returns_chip_value() {
    let lora_version = {
        let mut lora = radio();
        lora.read_register(sx127x_lora::Register::RegVersion).unwrap()
    };
    assert_eq!(lora_version, 0x12);
}
