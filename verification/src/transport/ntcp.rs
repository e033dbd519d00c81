//! The first TCP transport. Only its name is of use here: addresses of
//! this style may carry what the second TCP transport needs.

use vstd::prelude::*;

verus! {

/// The transport style of the first TCP transport.
pub const NTCP_STYLE: &'static str = "NTCP";

} // verus!
