//! Core data structures and the NTCP2 handshake of an I2P router.

pub mod bytes;
pub mod constants;
pub mod crypto;
pub mod data;
pub mod net;
pub mod text;
pub mod time;
pub mod transport;
