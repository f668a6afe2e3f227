//! JTAG operations: validated shifts, the command mailbox, and pin waveforms.

pub mod ipc;
pub mod pins;
pub mod scan;
pub mod service;
pub mod shift;
pub mod tap;
pub mod worker;
