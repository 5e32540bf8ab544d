//! Driver for Semtech SX1276/77/78/79 LoRa transceivers reached over SPI.
//!
//! Every chip access goes through a [`Port`]; the driver's contracts state
//! each operation as the exact sequence of wire events it produces.
pub mod encoding;
pub mod outside;
pub mod port;
pub mod radio;
pub mod register;
pub mod sim;

pub use port::{Event, Port};
pub use radio::{Error, Fault, LoRa, Packet, VERSION_CHECK};
pub use register::{RadioMode, Register};
pub use sim::SimChip;
