//! The session as built without a Steam client: nothing connects, sends fail, polls are empty.
use crate::payload::FramedPayload;
use crate::reliability::NetSendReliability;
use crate::session::SteamSessionConfig;
use vstd::prelude::*;

verus! {

/// The line telling that lobbies need a build with Steam.
pub open spec fn missing_steam_hint() -> Seq<char> {
    "game_net: built without `steam` feature; enable `steam` or default features on the depending crate."@
}

/// Inert session for builds without Steam (CI, no SDK): it keeps its configuration and never
/// joins, hosts, sends or receives.
#[derive(Debug)]
pub struct SteamMultiplayer {
    config: SteamSessionConfig,
}

impl SteamMultiplayer {
    /// The configuration the session was made with.
    pub closed spec fn spec_config(&self) -> SteamSessionConfig {
        self.config
    }

    pub fn new(config: SteamSessionConfig) -> (s: Self)
        ensures
            s.spec_config() == config,
    {
        Self { config }
    }

    /// Nothing to run without Steam.
    pub fn run_callbacks(&self) {
    }

    /// Nothing to advance without Steam.
    pub fn tick_multiplayer(&mut self)
        ensures
            *final(self) == *old(self),
    {
    }

    /// No lobby can be hosted without Steam: the session stays as it is, and the returned hint
    /// line is for the caller's error output.
    pub fn host_lobby(&mut self) -> (hint: String)
        ensures
            *final(self) == *old(self),
            hint@ == missing_steam_hint(),
    {
        String::from_str(
            "game_net: built without `steam` feature; enable `steam` or default features on the depending crate.",
        )
    }

    /// No lobby can be joined without Steam: the session stays as it is, and the returned hint
    /// line is for the caller's error output.
    pub fn join_lobby(&mut self, _lobby_id_text: &str) -> (hint: String)
        ensures
            *final(self) == *old(self),
            hint@ == missing_steam_hint(),
    {
        String::from_str(
            "game_net: built without `steam` feature; enable `steam` or default features on the depending crate.",
        )
    }

    pub fn leave_multiplayer(&mut self)
        ensures
            *final(self) == *old(self),
    {
    }

    pub fn open_overlay_invite(&self) {
    }

    pub fn overlay_invite_available(&self) -> (b: bool)
        ensures
            !b,
    {
        false
    }

    pub fn status_banner(&self) -> (banner: String)
        ensures
            banner@ == "Steam: disabled in this build (`steam` feature off)."@,
    {
        String::from_str("Steam: disabled in this build (`steam` feature off).")
    }

    pub fn multiplayer_detail_lines(&self) -> (lines: Vec<String>)
        ensures
            lines@.len() == 0,
    {
        Vec::new()
    }

    pub fn connection_panel_lines(&self) -> (lines: Vec<String>)
        ensures
            lines@.len() == 0,
    {
        Vec::new()
    }

    pub fn multiplayer_error(&self) -> (err: Option<&str>)
        ensures
            err.is_none(),
    {
        None
    }

    pub fn handshaken_peer_count(&self) -> (n: usize)
        ensures
            n == 0,
    {
        0
    }

    pub fn p2p_session_ready(&self) -> (b: bool)
        ensures
            !b,
    {
        false
    }

    pub fn p2p_is_host(&self) -> (b: bool)
        ensures
            !b,
    {
        false
    }

    /// Sending always fails without Steam.
    pub fn try_send_framed_payload(&mut self, payload: &[u8]) -> (res: Result<(), ()>)
        ensures
            res is Err,
            *final(self) == *old(self),
    {
        self.try_send_framed_payload_reliability(payload, NetSendReliability::Reliable)
    }

    /// Sending always fails without Steam, whatever the payload's size.
    pub fn try_send_framed_payload_reliability(
        &mut self,
        payload: &[u8],
        _reliability: NetSendReliability,
    ) -> (res: Result<(), ()>)
        ensures
            res is Err,
            *final(self) == *old(self),
    {
        if payload.len() > self.config.max_game_payload_bytes {
            return Err(());
        }
        Err(())
    }

    /// Nothing is ever received without Steam.
    pub fn poll_framed_payloads(&mut self) -> (out: Vec<FramedPayload>)
        ensures
            out@.len() == 0,
            *final(self) == *old(self),
    {
        Vec::new()
    }
}

} // verus!
