//! Session parameters: app identity, handshake discrimination, and safety limits.
use vstd::prelude::*;

verus! {

/// Parameters for a multiplayer session: Steam app identity, handshake discrimination, and safety
/// limits. All fields are required; there is no default, so games explicitly choose limits.
///
/// # Handshake contract
///
/// After a P2P connection is established, the **host** sends `handshake_ping` as a **raw** message
/// (not length-framed). The **client** waits for bytes equal to `handshake_ping`, then replies with
/// `handshake_pong`. Until the host observes `handshake_pong`, no framed game payloads from that
/// connection are exposed.
#[derive(Clone, Debug)]
pub struct SteamSessionConfig {
    /// Steam App ID passed to `Client::init_app` (e.g. `480` for Spacewar during development).
    pub app_id: u32,
    /// First application-defined message the **host** sends on a new connection (must not collide
    /// with framed packets; use a unique ASCII tag).
    pub handshake_ping: &'static [u8],
    /// **Client** reply to `handshake_ping`; must differ from `handshake_ping`.
    pub handshake_pong: &'static [u8],
    /// Upper bound on messages received per peer per call when draining framed traffic.
    pub recv_batch_max: usize,
    /// Maximum allowed **inner** game payload size in bytes (after the 4-byte length prefix is removed).
    pub max_game_payload_bytes: usize,
    /// Maximum lobby members for lobby creation.
    pub lobby_max_members: u32,
    /// Short label for the log line written when Steam client initialization fails.
    pub init_failed_log_prefix: &'static str,
}

} // verus!
