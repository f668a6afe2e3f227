//! Verified core of a Xilinx Virtual Cable (XVC) server for a dual-core
//! microcontroller: wire decoding, receive buffering, bounded-memory shift
//! streaming, the core-to-core command mailbox, JTAG waveforms, and Wi-Fi
//! link recovery.

pub mod bits;
pub mod buffer;
pub mod config;
pub mod decimal;
pub mod delay;
pub mod jtag;
pub mod network;
pub mod time;
pub mod xvc;
