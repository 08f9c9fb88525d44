//! The link between an IEEE 802.15.4 capture device and the host that analyses what it
//! captured.
//!
//! The device and the host exchange packets over a serial line. Each packet is laid out as a
//! tag and its fields (`schema`, `varint`), stuffed so that the zero byte is free to end the
//! frame (`stuffing`), and written and read as one frame (`codec`). On either side a framer
//! puts the frames together from whatever pieces the line delivers (`framer`). The device
//! decides by its capture state what to do about each control packet and each received frame
//! (`orchestrator`); the host finds the device by a handshake (`handshake`) and turns each
//! captured frame into a record for the capture file (`tap`).
//!
//! Nothing here reads or writes a port, a radio or a file: the programs around the library do
//! that, and hand it bytes and packets.

pub mod bytes;
pub mod codec;
pub mod framer;
pub mod handshake;
pub mod orchestrator;
pub mod packet;
pub mod schema;
pub mod stuffing;
pub mod tap;
pub mod varint;

pub use packet::{Error, Frame, Packet, Payload, PROBE_DEVICE, PROBE_HOST};
