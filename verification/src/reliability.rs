//! Delivery preference for length-framed game payloads.
use vstd::prelude::*;

verus! {

/// Delivery preference for **length-framed** game payloads (after the handshake).
///
/// Maps to SteamNetworkingSockets send flags (`RELIABLE_NO_NAGLE` vs `UNRELIABLE_NO_NAGLE`).
/// Unreliable datagrams may be dropped or reordered; use only when the game protocol tolerates loss.
#[derive(Clone, Copy, Debug, PartialEq, Eq, Structural)]
pub enum NetSendReliability {
    /// Ordered reliable delivery (TCP-like for this channel).
    Reliable,
    /// Best-effort; lower latency under load but no ordering guarantee vs other unreliable sends.
    Unreliable,
}

} // verus!
