//! The second TCP transport, built on the Noise protocol framework.

use vstd::prelude::*;

pub mod frame;
pub mod handshake;
pub mod noise;

verus! {

/// The size of the largest message of the transport.
pub const NTCP2_MTU: usize = 65535;

/// The name of the Noise protocol of the handshake.
pub const NTCP2_NOISE_PROTOCOL_NAME: &'static str =
    "Noise_XKaesobfse+hs2+hs3_25519_ChaChaPoly_SHA256";

/// The transport style of addresses of this transport.
pub const NTCP2_STYLE: &'static str = "NTCP2";

/// The version of the transport that is spoken here.
pub const NTCP2_VERSION: &'static str = "2";

/// The option that lists the versions that a router speaks.
pub const NTCP2_OPT_V: &'static str = "v";

/// The option that holds the static key of a router.
pub const NTCP2_OPT_S: &'static str = "s";

/// The option that holds the initialisation vector with which a router
/// expects the first key of a handshake to be obscured.
pub const NTCP2_OPT_I: &'static str = "i";

} // verus!
