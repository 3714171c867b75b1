//! Portable session layer for Steam lobbies and P2P traffic: handshake bytes, `u32` little-endian
//! length framing of game payloads, reliable / unreliable send preference, and an optional 15-byte
//! `(version, kind, tick, len)` header for opaque inner bodies.
//!
//! The session's decisions ([`multiplayer::MultiplayerSession`]) take plain values: the side that
//! owns the Steam client performs the lobby and network calls and reports their outcome.
//! [`SteamMultiplayer`] here is the session of a build without Steam.
pub mod framing;
pub mod multiplayer;
pub mod payload;
pub mod reliability;
pub mod report;
pub mod room_code;
pub mod session;
pub mod session_laws;
pub mod steam_stub;
pub mod wire_header;

pub use payload::FramedPayload;
pub use reliability::NetSendReliability;
pub use session::SteamSessionConfig;
pub use steam_stub::SteamMultiplayer;
