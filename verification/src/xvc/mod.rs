//! XVC sessions: wire format, receive buffering, and shift orchestration.

pub mod error;
pub mod report;
pub mod server;
pub mod session;
pub mod stream;
pub mod tms;
pub mod transport;
pub mod window;
pub mod wire;
