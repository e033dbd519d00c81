//! Transports over which routers talk to each other.

pub mod ntcp;
pub mod ntcp2;
